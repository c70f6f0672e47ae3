//! A fixed-size worker pool's hand-off and shutdown protocol, and the request
//! routing and response framing of the small web server built on it.
//!
//! `dispatch` is the FIFO queue of control messages shared by the workers;
//! `workers` holds the workers' thread handles until teardown joins them;
//! `response` decides and frames the answer to one connection.
use vstd::prelude::*;

pub mod dispatch;
pub mod response;
pub mod workers;

pub use dispatch::{Dispatch, Message};
pub use response::{build_response, decimal_digits, respond, route, Route};
pub use workers::WorkerSet;

verus! {

} // verus!

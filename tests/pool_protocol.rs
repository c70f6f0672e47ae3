use simple_web_server::{Dispatch, Message, WorkerSet};

fn job_of(m: Option<Message<u32>>) -> Option<u32> {
    match m {
        Some(Message::NewJob(j)) => Some(j),
        _ => None,
    }
}

fn is_terminate(m: &Option<Message<u32>>) -> bool {
    matches!(m, Some(Message::Terminate))
}

#[test]
fn new_queue_has_requested_size() {
    let d: Dispatch<u32> = Dispatch::new(4);
    assert_eq!(d.workers(), 4);
    assert!(d.is_open());
    for w in 0..4 {
        assert!(!d.has_stopped(w));
    }
}

#[test]
fn worker_set_holds_one_handle_per_worker() {
    let ws = WorkerSet::new(vec![10u32, 11, 12]);
    assert_eq!(ws.len(), 3);
}

#[test]
fn empty_queue_gives_nothing() {
    let mut d: Dispatch<u32> = Dispatch::new(2);
    assert!(d.recv(0).is_none());
    assert!(!d.has_stopped(0));
}

#[test]
fn ten_jobs_each_taken_once_by_four_workers() {
    let mut d: Dispatch<u32> = Dispatch::new(4);
    for i in 0..10u32 {
        assert!(d.execute(i).is_ok());
    }
    d.shutdown();
    let mut seen: Vec<u32> = Vec::new();
    let mut terminates = [0u32; 4];
    let mut w: usize = 0;
    loop {
        if (0..4).all(|v| d.has_stopped(v)) {
            break;
        }
        if !d.has_stopped(w) {
            let m = d.recv(w);
            if is_terminate(&m) {
                terminates[w] += 1;
            } else {
                seen.push(job_of(m).unwrap());
            }
        }
        w = (w + 1) % 4;
    }
    assert_eq!(seen, (0..10).collect::<Vec<u32>>());
    assert_eq!(terminates, [1, 1, 1, 1]);
}

#[test]
fn jobs_come_out_in_submission_order() {
    let mut d: Dispatch<u32> = Dispatch::new(1);
    d.execute(1).unwrap();
    d.execute(2).unwrap();
    assert_eq!(job_of(d.recv(0)), Some(1));
    assert_eq!(job_of(d.recv(0)), Some(2));
}

#[test]
fn terminates_come_after_pending_jobs() {
    let mut d: Dispatch<u32> = Dispatch::new(2);
    d.execute(5).unwrap();
    d.shutdown();
    assert_eq!(job_of(d.recv(1)), Some(5));
    assert!(is_terminate(&d.recv(1)));
    assert!(d.has_stopped(1));
    assert!(!d.has_stopped(0));
    assert!(is_terminate(&d.recv(0)));
    assert!(d.has_stopped(0));
}

#[test]
fn execute_after_shutdown_is_refused() {
    let mut d: Dispatch<u32> = Dispatch::new(2);
    d.shutdown();
    assert!(!d.is_open());
    assert_eq!(d.execute(9), Err(9));
}

#[test]
fn second_shutdown_enqueues_nothing() {
    let mut d: Dispatch<u32> = Dispatch::new(1);
    d.shutdown();
    d.shutdown();
    assert!(is_terminate(&d.recv(0)));
    assert!(d.has_stopped(0));
}

#[test]
fn teardown_takes_every_handle_once() {
    let mut ws = WorkerSet::new(vec![10u32, 11, 12]);
    assert_eq!(ws.take_threads(), vec![10, 11, 12]);
    assert!(ws.take_threads().is_empty());
    assert_eq!(ws.len(), 3);
}

#[test]
fn single_worker_runs_second_job_after_first() {
    type Step = Box<dyn FnOnce(&mut Vec<&'static str>)>;
    let mut d: Dispatch<Step> = Dispatch::new(1);
    assert!(d.execute(Box::new(|log: &mut Vec<&'static str>| log.push("A"))).is_ok());
    assert!(d.execute(Box::new(|log: &mut Vec<&'static str>| log.push("B"))).is_ok());
    d.shutdown();
    let mut log: Vec<&'static str> = Vec::new();
    loop {
        match d.recv(0) {
            Some(Message::NewJob(job)) => job(&mut log),
            Some(Message::Terminate) => break,
            None => panic!("worker left waiting after shutdown"),
        }
    }
    assert_eq!(log, vec!["A", "B"]);
}

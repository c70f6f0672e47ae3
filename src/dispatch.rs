use std::collections::VecDeque;
use vstd::prelude::*;

verus! {

/// A control message on the dispatch queue.
pub enum Message<J> {
    /// A unit of work for whichever worker takes the message.
    NewJob(J),
    /// Tells the worker that takes it to leave its loop.
    Terminate,
}

/// Number of `Terminate` messages in `s`.
pub open spec fn count_terminates<J>(s: Seq<Message<J>>) -> nat
    decreases s.len(),
{
    if s.len() == 0 {
        0
    } else {
        count_terminates(s.drop_last()) + if s.last() is Terminate { 1nat } else { 0nat }
    }
}

/// Number of `Terminate` messages among the first `k` of `msgs` that went to worker `w`,
/// where `takers[i]` is the worker that took `msgs[i]`.
pub open spec fn terminates_to<J>(msgs: Seq<Message<J>>, takers: Seq<nat>, w: nat, k: nat) -> nat
    decreases k,
{
    if k == 0 {
        0
    } else {
        terminates_to(msgs, takers, w, (k - 1) as nat) + if takers[k - 1] == w
            && msgs[k - 1] is Terminate { 1nat } else { 0nat }
    }
}

/// Number of `true` entries in `s`.
pub open spec fn count_true(s: Seq<bool>) -> nat
    decreases s.len(),
{
    if s.len() == 0 {
        0
    } else {
        count_true(s.drop_last()) + if s.last() { 1nat } else { 0nat }
    }
}

proof fn lemma_count_terminates_push<J>(s: Seq<Message<J>>, m: Message<J>)
    ensures
        count_terminates(s.push(m)) == count_terminates(s) + if m is Terminate { 1nat } else { 0nat },
{
    assert(s.push(m).drop_last() =~= s);
}

proof fn lemma_terminates_to_prefix<J>(
    a: Seq<Message<J>>,
    ta: Seq<nat>,
    b: Seq<Message<J>>,
    tb: Seq<nat>,
    w: nat,
    k: nat,
)
    requires
        k <= a.len(),
        k <= b.len(),
        k <= ta.len(),
        k <= tb.len(),
        forall|i: int| 0 <= i < k ==> #[trigger] a[i] == b[i],
        forall|i: int| 0 <= i < k ==> #[trigger] ta[i] == tb[i],
    ensures
        terminates_to(a, ta, w, k) == terminates_to(b, tb, w, k),
    decreases k,
{
    if k > 0 {
        lemma_terminates_to_prefix(a, ta, b, tb, w, (k - 1) as nat);
    }
}

proof fn lemma_count_true_set(s: Seq<bool>, i: int)
    requires
        0 <= i < s.len(),
        !s[i],
    ensures
        count_true(s.update(i, true)) == count_true(s) + 1,
    decreases s.len(),
{
    let t = s.update(i, true);
    if i == s.len() - 1 {
        assert(t.drop_last() =~= s.drop_last());
    } else {
        assert(t.drop_last() =~= s.drop_last().update(i, true));
        lemma_count_true_set(s.drop_last(), i);
    }
}

proof fn lemma_count_true_bound(s: Seq<bool>)
    ensures
        count_true(s) <= s.len(),
        count_true(s) == s.len() ==> forall|i: int| 0 <= i < s.len() ==> #[trigger] s[i],
    decreases s.len(),
{
    if s.len() > 0 {
        lemma_count_true_bound(s.drop_last());
        if count_true(s) == s.len() {
            assert forall|i: int| 0 <= i < s.len() implies #[trigger] s[i] by {
                if i < s.len() - 1 {
                    assert(s[i] == s.drop_last()[i]);
                }
            }
        }
    }
}

proof fn lemma_count_true_none(s: Seq<bool>)
    requires
        forall|i: int| 0 <= i < s.len() ==> !#[trigger] s[i],
    ensures
        count_true(s) == 0,
    decreases s.len(),
{
    if s.len() > 0 {
        lemma_count_true_none(s.drop_last());
    }
}

/// The shared FIFO queue between the pool and its workers.
///
/// Every message ever accepted is kept in a ghost history: the messages already
/// delivered, each with the worker that took it, followed by those still pending.
/// A worker that has taken a `Terminate` is stopped and takes nothing more.
pub struct Dispatch<J> {
    queue: VecDeque<Message<J>>,
    open: bool,
    stopped: Vec<bool>,
    delivered: Ghost<Seq<Message<J>>>,
    takers: Ghost<Seq<nat>>,
}

impl<J> Dispatch<J> {
    /// The messages waiting to be taken, oldest first.
    pub closed spec fn pending(&self) -> Seq<Message<J>> {
        self.queue@
    }

    /// The messages taken so far, in the order they were taken.
    pub closed spec fn delivered(&self) -> Seq<Message<J>> {
        self.delivered@
    }

    /// For each delivered message, the index of the worker that took it.
    pub closed spec fn takers(&self) -> Seq<nat> {
        self.takers@
    }

    /// Every message accepted so far, in the order it was accepted.
    pub open spec fn sent(&self) -> Seq<Message<J>> {
        self.delivered() + self.pending()
    }

    /// Whether new jobs are still accepted.
    pub closed spec fn is_open_spec(&self) -> bool {
        self.open
    }

    /// The number of workers that share the queue.
    pub closed spec fn size(&self) -> nat {
        self.stopped@.len()
    }

    /// Whether worker `w` has taken its `Terminate`.
    pub closed spec fn is_stopped(&self, w: nat) -> bool {
        self.stopped@[w as int]
    }

    /// Number of `Terminate` messages worker `w` has taken.
    pub open spec fn terminates_received(&self, w: nat) -> nat {
        terminates_to(self.delivered(), self.takers(), w, self.delivered().len())
    }

    /// The queue's invariant: at least one worker; every delivery names a worker of the
    /// pool; a worker is stopped exactly when it has taken one `Terminate`; and the
    /// history holds no `Terminate` while open and one per worker once shut down.
    pub closed spec fn wf(&self) -> bool {
        &&& self.stopped@.len() > 0
        &&& self.delivered@.len() == self.takers@.len()
        &&& forall|i: int| 0 <= i < self.takers@.len() ==> #[trigger] self.takers@[i] < self.stopped@.len()
        &&& forall|w: nat| w < self.stopped@.len() ==>
            #[trigger] terminates_to(self.delivered@, self.takers@, w, self.delivered@.len())
                == if self.stopped@[w as int] { 1nat } else { 0nat }
        &&& count_true(self.stopped@) == count_terminates(self.delivered@)
        &&& count_terminates(self.delivered@ + self.queue@) == if self.open { 0 } else { self.stopped@.len() }
    }

    /// Creates an open, empty queue shared by `size` workers, none of them stopped.
    pub fn new(size: usize) -> (d: Self)
        requires
            size > 0,
        ensures
            d.wf(),
            d.size() == size,
            d.is_open_spec(),
            d.pending() == Seq::<Message<J>>::empty(),
            d.delivered() == Seq::<Message<J>>::empty(),
            d.takers() == Seq::<nat>::empty(),
            forall|w: nat| w < size ==> !#[trigger] d.is_stopped(w),
    {
        let mut stopped: Vec<bool> = Vec::new();
        let mut i: usize = 0;
        while i < size
            invariant
                i <= size,
                stopped@.len() == i,
                forall|j: int| 0 <= j < i ==> !#[trigger] stopped@[j],
            decreases size - i,
        {
            stopped.push(false);
            i = i + 1;
        }
        proof {
            lemma_count_true_none(stopped@);
        }
        let d = Dispatch {
            queue: VecDeque::new(),
            open: true,
            stopped,
            delivered: Ghost(Seq::empty()),
            takers: Ghost(Seq::empty()),
        };
        assert(d.delivered@ + d.queue@ =~= Seq::<Message<J>>::empty());
        d
    }

    /// Whether new jobs are still accepted.
    pub fn is_open(&self) -> (r: bool)
        ensures
            r == self.is_open_spec(),
    {
        self.open
    }

    /// The number of workers that share the queue.
    pub fn workers(&self) -> (r: usize)
        ensures
            r == self.size(),
    {
        self.stopped.len()
    }

    /// Whether worker `w` has taken its `Terminate`.
    pub fn has_stopped(&self, w: usize) -> (r: bool)
        requires
            w < self.size(),
        ensures
            r == self.is_stopped(w as nat),
    {
        self.stopped[w]
    }

    /// Enqueues `job` behind every message already pending. Once the queue has been
    /// shut down the job is refused and handed back.
    pub fn execute(&mut self, job: J) -> (r: Result<(), J>)
        requires
            old(self).wf(),
        ensures
            final(self).wf(),
            final(self).size() == old(self).size(),
            final(self).is_open_spec() == old(self).is_open_spec(),
            final(self).delivered() == old(self).delivered(),
            final(self).takers() == old(self).takers(),
            forall|w: nat| #[trigger] final(self).is_stopped(w) == old(self).is_stopped(w),
            old(self).is_open_spec() ==> r is Ok && final(self).pending() == old(self).pending().push(
                Message::NewJob(job),
            ),
            !old(self).is_open_spec() ==> r == Err::<(), J>(job) && final(self).pending()
                == old(self).pending(),
    {
        if self.open {
            proof {
                lemma_count_terminates_push(
                    self.delivered@ + self.queue@,
                    Message::<J>::NewJob(job),
                );
                assert((self.delivered@ + self.queue@).push(Message::NewJob(job)) =~= self.delivered@
                    + self.queue@.push(Message::NewJob(job)));
            }
            self.queue.push_back(Message::NewJob(job));
            Ok(())
        } else {
            Err(job)
        }
    }

    /// Closes the queue to new jobs and enqueues one `Terminate` per worker, behind
    /// every job already pending. Does nothing on a queue already shut down.
    pub fn shutdown(&mut self)
        requires
            old(self).wf(),
        ensures
            final(self).wf(),
            !final(self).is_open_spec(),
            final(self).size() == old(self).size(),
            final(self).delivered() == old(self).delivered(),
            final(self).takers() == old(self).takers(),
            forall|w: nat| #[trigger] final(self).is_stopped(w) == old(self).is_stopped(w),
            old(self).is_open_spec() ==> final(self).pending() == old(self).pending() + Seq::new(
                old(self).size(),
                |i: int| Message::<J>::Terminate,
            ),
            !old(self).is_open_spec() ==> final(self).pending() == old(self).pending(),
    {
        if !self.open {
            return;
        }
        let n = self.stopped.len();
        let mut i: usize = 0;
        while i < n
            invariant
                old(self).wf(),
                old(self).open,
                n == old(self).stopped@.len(),
                i <= n,
                self.open,
                self.stopped@ == old(self).stopped@,
                self.delivered@ == old(self).delivered@,
                self.takers@ == old(self).takers@,
                self.queue@ == old(self).queue@ + Seq::new(i as nat, |j: int| Message::<J>::Terminate),
                count_terminates(self.delivered@ + self.queue@) == i,
            decreases n - i,
        {
            proof {
                lemma_count_terminates_push(self.delivered@ + self.queue@, Message::<J>::Terminate);
                assert((self.delivered@ + self.queue@).push(Message::Terminate) =~= self.delivered@
                    + self.queue@.push(Message::Terminate));
                assert(self.queue@.push(Message::Terminate) =~= old(self).queue@ + Seq::new(
                    (i + 1) as nat,
                    |j: int| Message::<J>::Terminate,
                ));
            }
            self.queue.push_back(Message::Terminate);
            i = i + 1;
        }
        self.open = false;
    }

    /// Worker `w` takes the oldest pending message, if there is one. Taking a
    /// `Terminate` stops the worker.
    pub fn recv(&mut self, w: usize) -> (r: Option<Message<J>>)
        requires
            old(self).wf(),
            w < old(self).size(),
            !old(self).is_stopped(w as nat),
        ensures
            final(self).wf(),
            final(self).size() == old(self).size(),
            final(self).is_open_spec() == old(self).is_open_spec(),
            old(self).pending().len() == 0 ==> {
                &&& r is None
                &&& final(self).pending() == old(self).pending()
                &&& final(self).delivered() == old(self).delivered()
                &&& final(self).takers() == old(self).takers()
                &&& forall|v: nat| #[trigger] final(self).is_stopped(v) == old(self).is_stopped(v)
            },
            old(self).pending().len() > 0 ==> {
                &&& r == Some(old(self).pending()[0])
                &&& final(self).pending() == old(self).pending().drop_first()
                &&& final(self).delivered() == old(self).delivered().push(old(self).pending()[0])
                &&& final(self).takers() == old(self).takers().push(w as nat)
                &&& final(self).is_stopped(w as nat) == old(self).pending()[0] is Terminate
                &&& forall|v: nat|
                    v != w && v < old(self).size() ==> #[trigger] final(self).is_stopped(v)
                        == old(self).is_stopped(v)
            },
    {
        match self.queue.pop_front() {
            None => None,
            Some(m) => {
                let ghost d0 = self.delivered@;
                let ghost t0 = self.takers@;
                let ghost s0 = self.stopped@;
                let term = match &m {
                    Message::Terminate => true,
                    Message::NewJob(_) => false,
                };
                if term {
                    self.stopped[w] = true;
                }
                proof {
                    self.delivered@ = d0.push(m);
                    self.takers@ = t0.push(w as nat);
                    let d1 = self.delivered@;
                    let t1 = self.takers@;
                    let k = d0.len();
                    assert(d1 + self.queue@ =~= d0 + old(self).queue@);
                    assert(self.queue@ =~= old(self).queue@.drop_first());
                    lemma_count_terminates_push(d0, m);
                    if term {
                        lemma_count_true_set(s0, w as int);
                        assert(self.stopped@ =~= s0.update(w as int, true));
                    } else {
                        assert(self.stopped@ =~= s0);
                    }
                    assert forall|v: nat| v < self.stopped@.len() implies #[trigger] terminates_to(
                        d1,
                        t1,
                        v,
                        d1.len(),
                    ) == if self.stopped@[v as int] { 1nat } else { 0nat } by {
                        lemma_terminates_to_prefix(d1, t1, d0, t0, v, k);
                        assert(terminates_to(d0, t0, v, k) == if s0[v as int] { 1nat } else { 0nat });
                    }
                    assert forall|i: int| 0 <= i < t1.len() implies #[trigger] t1[i]
                        < self.stopped@.len() by {
                        if i < k {
                            assert(t1[i] == t0[i]);
                        }
                    }
                }
                Some(m)
            },
        }
    }
}

/// Every message the queue accepted was either taken exactly once, by one worker of
/// the pool, or is still pending: the history of accepted messages is the taken ones,
/// each paired with a single worker index, followed by the pending ones. Once nothing
/// is pending, every accepted message has been taken.
pub proof fn lemma_each_message_taken_once<J>(d: &Dispatch<J>)
    requires
        d.wf(),
    ensures
        d.sent() == d.delivered() + d.pending(),
        d.takers().len() == d.delivered().len(),
        forall|i: int| 0 <= i < d.takers().len() ==> #[trigger] d.takers()[i] < d.size(),
        d.pending().len() == 0 ==> d.delivered() == d.sent(),
{
    if d.pending().len() == 0 {
        assert(d.delivered() + d.pending() =~= d.delivered());
    }
}

/// Messages are taken in the order they were accepted, across all workers: what has
/// been taken is always a prefix of what was accepted, so no message is taken while
/// an older one is still pending.
pub proof fn lemma_taken_in_send_order<J>(d: &Dispatch<J>)
    requires
        d.wf(),
    ensures
        d.delivered() == d.sent().take(d.delivered().len() as int),
        d.pending() == d.sent().skip(d.delivered().len() as int),
{
    assert(d.delivered() =~= d.sent().take(d.delivered().len() as int));
    assert(d.pending() =~= d.sent().skip(d.delivered().len() as int));
}

/// A worker takes at most one `Terminate` in its lifetime, and it is stopped exactly
/// when it has taken one. Once the queue is shut down and drained, every worker has
/// taken exactly one.
pub proof fn lemma_one_terminate_per_worker<J>(d: &Dispatch<J>)
    requires
        d.wf(),
    ensures
        forall|w: nat| w < d.size() ==> #[trigger] d.terminates_received(w) <= 1,
        forall|w: nat| w < d.size() ==> (d.terminates_received(w) == 1 <==> #[trigger] d.is_stopped(w)),
        !d.is_open_spec() && d.pending().len() == 0 ==> forall|w: nat|
            w < d.size() ==> #[trigger] d.terminates_received(w) == 1,
{
    lemma_count_true_bound(d.stopped@);
    if !d.is_open_spec() && d.pending().len() == 0 {
        assert(d.delivered@ + d.queue@ =~= d.delivered@);
        assert forall|w: nat| w < d.size() implies #[trigger] d.terminates_received(w) == 1 by {
            assert(d.stopped@[w as int]);
        }
    }
}

/// After shutdown no worker is left waiting on an empty queue: a worker that has not
/// stopped always finds a message pending.
pub proof fn lemma_no_worker_left_waiting<J>(d: &Dispatch<J>, w: nat)
    requires
        d.wf(),
        !d.is_open_spec(),
        w < d.size(),
        !d.is_stopped(w),
    ensures
        d.pending().len() > 0,
{
    lemma_one_terminate_per_worker(d);
}

} // verus!

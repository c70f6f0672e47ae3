use vstd::prelude::*;

verus! {

/// One worker of the pool: a fixed index and the handle of its thread, until the
/// handle is taken to be joined.
struct Worker<H> {
    id: usize,
    thread: Option<H>,
}

/// The handles that are still present in `s`, in order.
pub open spec fn present<H>(s: Seq<Option<H>>) -> Seq<H>
    decreases s.len(),
{
    if s.len() == 0 {
        Seq::empty()
    } else {
        match s.last() {
            Some(h) => present(s.drop_last()).push(h),
            None => present(s.drop_last()),
        }
    }
}

proof fn lemma_present_none<H>(s: Seq<Option<H>>)
    requires
        forall|i: int| 0 <= i < s.len() ==> #[trigger] s[i] is None,
    ensures
        present(s) == Seq::<H>::empty(),
    decreases s.len(),
{
    if s.len() > 0 {
        lemma_present_none(s.drop_last());
    }
}

/// The fixed set of workers of a pool, indexed `0..size`.
pub struct WorkerSet<H> {
    workers: Vec<Worker<H>>,
}

impl<H> WorkerSet<H> {
    /// The thread handle held for each worker, by index.
    pub closed spec fn threads(&self) -> Seq<Option<H>> {
        self.workers@.map_values(|w: Worker<H>| w.thread)
    }

    pub closed spec fn size(&self) -> nat {
        self.workers@.len()
    }

    /// At least one worker, and worker `i` carries index `i`.
    pub closed spec fn wf(&self) -> bool {
        &&& self.workers@.len() > 0
        &&& forall|i: int| 0 <= i < self.workers@.len() ==> #[trigger] self.workers@[i].id == i
    }

    /// One worker per handle, worker `i` holding `threads[i]`.
    pub fn new(threads: Vec<H>) -> (r: Self)
        requires
            threads@.len() > 0,
        ensures
            r.wf(),
            r.size() == threads@.len(),
            r.threads() == threads@.map_values(|h: H| Some(h)),
    {
        let ghost hs = threads@;
        let mut threads = threads;
        let mut rev: Vec<H> = Vec::new();
        while threads.len() > 0
            invariant
                threads@.len() + rev@.len() == hs.len(),
                forall|i: int| 0 <= i < threads@.len() ==> #[trigger] threads@[i] == hs[i],
                forall|i: int|
                    0 <= i < rev@.len() ==> #[trigger] rev@[i] == hs[hs.len() - 1 - i],
            decreases threads@.len(),
        {
            let h = threads.pop().unwrap();
            rev.push(h);
        }
        let n = rev.len();
        let mut workers: Vec<Worker<H>> = Vec::new();
        while rev.len() > 0
            invariant
                rev@.len() + workers@.len() == n,
                n == hs.len(),
                forall|i: int|
                    0 <= i < rev@.len() ==> #[trigger] rev@[i] == hs[hs.len() - 1 - i],
                forall|i: int|
                    0 <= i < workers@.len() ==> #[trigger] workers@[i].id == i && workers@[i].thread
                        == Some(hs[i]),
            decreases rev@.len(),
        {
            let h = rev.pop().unwrap();
            let id = workers.len();
            workers.push(Worker { id, thread: Some(h) });
        }
        let r = WorkerSet { workers };
        assert forall|i: int| 0 <= i < hs.len() implies #[trigger] r.threads()[i] == Some(hs[i]) by {
            assert(r.workers@[i].id == i);
        }
        assert(r.threads() =~= hs.map_values(|h: H| Some(h)));
        r
    }

    /// The number of workers.
    pub fn len(&self) -> (r: usize)
        ensures
            r == self.size(),
    {
        self.workers.len()
    }

    /// Takes every handle still held, in index order, leaving none behind. A second
    /// call finds nothing to take.
    pub fn take_threads(&mut self) -> (r: Vec<H>)
        requires
            old(self).wf(),
        ensures
            final(self).wf(),
            final(self).size() == old(self).size(),
            r@ == present(old(self).threads()),
            forall|i: int| 0 <= i < final(self).size() ==> #[trigger] final(self).threads()[i] is None,
    {
        let ghost ts = self.threads();
        let mut rest: Vec<Worker<H>> = Vec::new();
        std::mem::swap(&mut rest, &mut self.workers);
        let n = rest.len();
        let mut rev: Vec<Worker<H>> = Vec::new();
        while rest.len() > 0
            invariant
                rest@.len() + rev@.len() == n,
                n == ts.len(),
                forall|i: int| 0 <= i < rest@.len() ==> #[trigger] rest@[i].thread == ts[i],
                forall|i: int| 0 <= i < rest@.len() ==> #[trigger] rest@[i].id == i,
                forall|i: int|
                    0 <= i < rev@.len() ==> #[trigger] rev@[i].thread == ts[n - 1 - i]
                        && rev@[i].id == n - 1 - i,
            decreases rest@.len(),
        {
            let w = rest.pop().unwrap();
            rev.push(w);
        }
        let mut taken: Vec<H> = Vec::new();
        let mut workers: Vec<Worker<H>> = Vec::new();
        while rev.len() > 0
            invariant
                rev@.len() + workers@.len() == n,
                n == ts.len(),
                forall|i: int|
                    0 <= i < rev@.len() ==> #[trigger] rev@[i].thread == ts[n - 1 - i]
                        && rev@[i].id == n - 1 - i,
                forall|i: int|
                    0 <= i < workers@.len() ==> #[trigger] workers@[i].id == i
                        && workers@[i].thread is None,
                taken@ == present(ts.take(workers@.len() as int)),
            decreases rev@.len(),
        {
            let w = rev.pop().unwrap();
            let k = workers.len();
            proof {
                assert(ts.take(k + 1).drop_last() =~= ts.take(k as int));
            }
            match w.thread {
                Some(h) => taken.push(h),
                None => {},
            }
            workers.push(Worker { id: w.id, thread: None });
        }
        self.workers = workers;
        assert(ts.take(n as int) =~= ts);
        assert forall|i: int| 0 <= i < self.size() implies #[trigger] self.threads()[i] is None by {
            assert(self.workers@[i].id == i);
        }
        taken
    }
}

/// Tearing a pool down twice joins nothing the second time: once the handles have
/// been taken, none is left to take.
pub proof fn lemma_second_take_is_empty<H>(ws: &WorkerSet<H>)
    requires
        ws.wf(),
        forall|i: int| 0 <= i < ws.size() ==> #[trigger] ws.threads()[i] is None,
    ensures
        present(ws.threads()) == Seq::<H>::empty(),
{
    lemma_present_none(ws.threads());
}

} // verus!

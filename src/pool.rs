//! The job queue of a fixed pool of workers, as a state machine. Jobs are
//! numbered; they wait in arrival order and each idle worker takes the oldest.
//! A worker runs one job at a time, so at most as many jobs run as there are
//! workers. Once stopping, no waiting job is started and workers exit when
//! idle.
use vstd::prelude::*;

verus! {

/// What a worker does next.
#[derive(PartialEq, Eq, Structural, Clone, Copy, Debug)]
pub enum WorkerStep {
    /// Run the job with this number.
    Run(u64),
    /// Nothing waits: wait for a job to be submitted.
    Wait,
    /// The pool is stopping: leave.
    Exit,
}

pub struct JobQueue {
    waiting: Vec<u64>,
    workers: Vec<Option<u64>>,
    stopping: bool,
}

/// The abstract state of a job queue.
pub struct QueueView {
    /// Jobs submitted and not started, oldest first.
    pub waiting: Seq<u64>,
    /// For each worker, the job it runs, if any.
    pub workers: Seq<Option<u64>>,
    pub stopping: bool,
}

/// The number of workers that run a job.
pub open spec fn busy(ws: Seq<Option<u64>>) -> nat
    decreases ws.len(),
{
    if ws.len() == 0 {
        0
    } else {
        busy(ws.drop_last()) + if ws.last() is Some {
            1nat
        } else {
            0nat
        }
    }
}

impl View for JobQueue {
    type V = QueueView;

    closed spec fn view(&self) -> QueueView {
        QueueView { waiting: self.waiting@, workers: self.workers@, stopping: self.stopping }
    }
}

impl JobQueue {
    /// A queue for `n` workers, all idle, with nothing waiting.
    pub fn new(n: usize) -> (r: JobQueue)
        requires
            n > 0,
        ensures
            r@.waiting.len() == 0,
            r@.workers.len() == n,
            forall|w: int| 0 <= w < n ==> r@.workers[w] is None,
            !r@.stopping,
    {
        let mut workers: Vec<Option<u64>> = Vec::new();
        let mut i: usize = 0;
        while i < n
            invariant
                i <= n,
                workers@.len() == i,
                forall|w: int| 0 <= w < i ==> workers@[w] is None,
            decreases n - i,
        {
            workers.push(None);
            i = i + 1;
        }
        JobQueue { waiting: Vec::new(), workers, stopping: false }
    }

    /// The number of workers.
    pub fn size(&self) -> (r: usize)
        ensures
            r == self@.workers.len(),
    {
        self.workers.len()
    }

    /// Enqueues job `job` behind those that wait. Nothing else changes.
    pub fn execute(&mut self, job: u64)
        ensures
            final(self)@.waiting == old(self)@.waiting.push(job),
            final(self)@.workers == old(self)@.workers,
            final(self)@.stopping == old(self)@.stopping,
    {
        self.waiting.push(job);
    }

    /// Decides what idle worker `w` does next. It takes the oldest waiting
    /// job unless the pool is stopping.
    pub fn next_for(&mut self, w: usize) -> (r: WorkerStep)
        requires
            w < old(self)@.workers.len(),
            old(self)@.workers[w as int] is None,
        ensures
            final(self)@.stopping == old(self)@.stopping,
            old(self)@.stopping ==> r == WorkerStep::Exit && final(self)@ == old(self)@,
            !old(self)@.stopping && old(self)@.waiting.len() == 0 ==> r == WorkerStep::Wait
                && final(self)@ == old(self)@,
            !old(self)@.stopping && old(self)@.waiting.len() > 0 ==> r == WorkerStep::Run(
                old(self)@.waiting[0],
            ) && final(self)@.waiting == old(self)@.waiting.drop_first()
                && final(self)@.workers == old(self)@.workers.update(
                w as int,
                Some(old(self)@.waiting[0]),
            ),
    {
        if self.stopping {
            return WorkerStep::Exit;
        }
        if self.waiting.len() == 0 {
            return WorkerStep::Wait;
        }
        let job = self.waiting.remove(0);
        self.workers.set(w, Some(job));
        proof {
            assert(self.waiting@ =~= old(self)@.waiting.drop_first());
        }
        WorkerStep::Run(job)
    }

    /// Worker `w` has finished its job and is idle again.
    pub fn finish(&mut self, w: usize)
        requires
            w < old(self)@.workers.len(),
        ensures
            final(self)@.waiting == old(self)@.waiting,
            final(self)@.workers == old(self)@.workers.update(w as int, None),
            final(self)@.stopping == old(self)@.stopping,
    {
        self.workers.set(w, None);
    }

    /// Stops the pool: waiting jobs are abandoned, running ones may finish.
    pub fn stop(&mut self)
        ensures
            final(self)@.waiting == old(self)@.waiting,
            final(self)@.workers == old(self)@.workers,
            final(self)@.stopping,
    {
        self.stopping = true;
    }
}

pub proof fn lemma_busy_bound(ws: Seq<Option<u64>>)
    ensures
        busy(ws) <= ws.len(),
        busy(ws) == ws.len() ==> forall|w: int| 0 <= w < ws.len() ==> (#[trigger] ws[w]) is Some,
    decreases ws.len(),
{
    if ws.len() > 0 {
        lemma_busy_bound(ws.drop_last());
        if busy(ws) == ws.len() {
            assert forall|w: int| 0 <= w < ws.len() implies (#[trigger] ws[w]) is Some by {
                if w < ws.len() - 1 {
                    assert(ws.drop_last()[w] == ws[w]);
                }
            }
        }
    }
}

/// Bounded concurrency: whatever the state, no more jobs run than there are
/// workers; and when every worker runs a job, no worker is idle, so no
/// waiting job can start until one finishes.
pub proof fn lemma_pool_bounded(q: QueueView)
    ensures
        busy(q.workers) <= q.workers.len(),
        busy(q.workers) == q.workers.len() ==> forall|w: int|
            0 <= w < q.workers.len() ==> (#[trigger] q.workers[w]) is Some,
{
    lemma_busy_bound(q.workers);
}

} // verus!

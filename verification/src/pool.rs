//! The worker pool: a fixed set of workers draining a FIFO task queue.
//!
//! The pool is modelled as a state machine over plain values. A task is
//! identified by the `u64` ticket that `execute` hands out; the host program
//! keeps the actual callables, runs one worker loop per thread, and drives
//! each loop through `next_task` / `finish_task`. `PoolModel` is the
//! mathematical view of the pool and every operation's contract states the
//! exact transition it performs on that view.

use vstd::prelude::*;

verus! {

/// Errors raised by the pool manager.
#[derive(Clone, Copy, Debug, PartialEq, Eq, Structural)]
pub enum PoolError {
    /// Construction was attempted with zero workers; fatal.
    ConstructionError,
    /// `execute` was called after shutdown had begun; the task is returned
    /// to the caller, never silently dropped.
    RejectedAfterShutdown,
}

/// What the worker loop reports after running one task. A failure is
/// contained in the worker that observed it: the pool transition after a
/// task does not depend on this value.
#[derive(Clone, Copy, Debug, PartialEq, Eq, Structural)]
pub enum TaskOutcome {
    Completed,
    Failed,
}

/// Phase of one worker: idle and waiting, running the given task, or
/// terminated after observing the closed queue.
#[derive(Clone, Copy, Debug, PartialEq, Eq, Structural)]
pub enum WorkerState {
    Idle,
    Running(u64),
    Terminated,
}

/// Instruction handed to a worker loop by `next_task`.
#[derive(Clone, Copy, Debug, PartialEq, Eq, Structural)]
pub enum NextTask {
    /// Run the task with this ticket, then report back with `finish_task`.
    Run(u64),
    /// The queue is empty but not closed: wait and ask again.
    Pending,
    /// The queue is closed and drained: the worker terminates.
    Closed,
}

/// The mathematical state of a pool: one entry per worker, the queue of
/// pending tickets in FIFO order, the tickets handed to a worker so far in
/// dispatch order, the next fresh ticket, and whether shutdown has begun.
#[verifier::ext_equal]
pub struct PoolModel {
    pub workers: Seq<WorkerState>,
    pub queue: Seq<u64>,
    pub executed: Seq<u64>,
    pub next_id: nat,
    pub shut_down: bool,
}

/// The task a worker is currently running, if any.
pub open spec fn running_task(w: WorkerState) -> Option<u64> {
    match w {
        WorkerState::Running(t) => Some(t),
        _ => None,
    }
}

/// Well-formedness of a pool state. Every reachable state satisfies it:
/// tickets are handed out exactly once (`executed` has no duplicates and is
/// disjoint from the queue), every ticket is below the fresh counter, a
/// running worker holds a dispatched ticket, two workers never run the same
/// task at once, and a worker terminates only after shutdown has begun.
pub open spec fn pool_wf(m: PoolModel) -> bool {
    &&& m.workers.len() > 0
    &&& m.next_id <= u64::MAX
    &&& m.queue.no_duplicates()
    &&& m.executed.no_duplicates()
    &&& (forall|i: int| 0 <= i < m.queue.len() ==> #[trigger] m.queue[i] < m.next_id)
    &&& (forall|i: int| 0 <= i < m.executed.len() ==> #[trigger] m.executed[i] < m.next_id)
    &&& (forall|t: u64| #[trigger] m.queue.contains(t) ==> !m.executed.contains(t))
    &&& (forall|i: int|
        0 <= i < m.workers.len() ==> match #[trigger] m.workers[i] {
            WorkerState::Running(t) => m.executed.contains(t) && !m.queue.contains(t),
            _ => true,
        })
    &&& (forall|i: int, j: int|
        0 <= i < m.workers.len() && 0 <= j < m.workers.len() && i != j
            && #[trigger] running_task(m.workers[i]) is Some
            ==> running_task(m.workers[i]) != #[trigger] running_task(m.workers[j]))
    &&& (forall|i: int|
        0 <= i < m.workers.len() && #[trigger] m.workers[i] is Terminated ==> m.shut_down)
}

/// The state of a freshly constructed pool of `size` workers: all idle,
/// nothing queued, nothing executed, accepting tasks.
pub open spec fn spec_create(size: nat) -> PoolModel {
    PoolModel {
        workers: Seq::new(size, |i: int| WorkerState::Idle),
        queue: Seq::empty(),
        executed: Seq::empty(),
        next_id: 0,
        shut_down: false,
    }
}

/// Admission of one task: the fresh ticket goes to the back of the queue.
pub open spec fn spec_execute(m: PoolModel) -> PoolModel {
    PoolModel { queue: m.queue.push(m.next_id as u64), next_id: m.next_id + 1, ..m }
}

/// Closing the queue: shutdown has begun, nothing else changes.
pub open spec fn spec_close(m: PoolModel) -> PoolModel {
    PoolModel { shut_down: true, ..m }
}

/// Dispatch of the queue's front task to worker `w`.
pub open spec fn spec_dispatch(m: PoolModel, w: int) -> PoolModel {
    PoolModel {
        workers: m.workers.update(w, WorkerState::Running(m.queue[0])),
        queue: m.queue.subrange(1, m.queue.len() as int),
        executed: m.executed.push(m.queue[0]),
        ..m
    }
}

/// Worker `w` observes the closed, drained queue and terminates.
pub open spec fn spec_retire(m: PoolModel, w: int) -> PoolModel {
    PoolModel { workers: m.workers.update(w, WorkerState::Terminated), ..m }
}

/// Worker `w` finished its task and is idle again. The transition is the
/// same whether the task completed or failed: a failing task is contained.
pub open spec fn spec_finish(m: PoolModel, w: int, outcome: TaskOutcome) -> PoolModel {
    PoolModel { workers: m.workers.update(w, WorkerState::Idle), ..m }
}

/// Shutdown, as observed once it returns: the queue was closed, every
/// queued task was drained (executed in FIFO order after the tasks already
/// dispatched), every worker observed the closed signal and terminated.
pub open spec fn spec_shutdown(m: PoolModel) -> PoolModel {
    PoolModel {
        workers: Seq::new(m.workers.len(), |i: int| WorkerState::Terminated),
        queue: Seq::empty(),
        executed: m.executed + m.queue,
        next_id: m.next_id,
        shut_down: true,
    }
}

/// A fixed-size worker pool. Construction spawns the workers' states; the
/// host program pairs each with a real thread. All synchronisation lives in
/// the host; the pool itself is the single source of every control decision.
pub struct ThreadPool {
    workers: Vec<WorkerState>,
    queue: Vec<u64>,
    executed: Vec<u64>,
    next_id: u64,
    shut_down: bool,
}

impl View for ThreadPool {
    type V = PoolModel;

    closed spec fn view(&self) -> PoolModel {
        PoolModel {
            workers: self.workers@,
            queue: self.queue@,
            executed: self.executed@,
            next_id: self.next_id as nat,
            shut_down: self.shut_down,
        }
    }
}

impl ThreadPool {
    /// Create a pool of exactly `size` workers, all idle before this
    /// returns. A pool of zero workers is a contract violation and is
    /// rejected with `ConstructionError`.
    pub fn new(size: usize) -> (r: Result<ThreadPool, PoolError>)
        ensures
            size == 0 <==> r is Err,
            r is Err ==> r->Err_0 == PoolError::ConstructionError,
            r is Ok ==> r->Ok_0@ == spec_create(size as nat) && pool_wf(r->Ok_0@),
    {
        if size == 0 {
            return Err(PoolError::ConstructionError);
        }
        let mut workers: Vec<WorkerState> = Vec::new();
        let mut i: usize = 0;
        while i < size
            invariant
                i <= size,
                workers@.len() == i as nat,
                forall|j: int| 0 <= j < i ==> workers@[j] == WorkerState::Idle,
            decreases size - i,
        {
            workers.push(WorkerState::Idle);
            i += 1;
        }
        let pool = ThreadPool {
            workers,
            queue: Vec::new(),
            executed: Vec::new(),
            next_id: 0,
            shut_down: false,
        };
        proof {
            assert(pool@ =~= spec_create(size as nat));
        }
        Ok(pool)
    }

    /// Submit one task. If shutdown has begun the submission is rejected
    /// with `RejectedAfterShutdown` and the pool is unchanged; otherwise the
    /// fresh ticket is enqueued at the back of the FIFO queue and returned
    /// as the acknowledgement. Admission never blocks and never waits for
    /// the task to run.
    pub fn execute(&mut self) -> (r: Result<u64, PoolError>)
        requires
            pool_wf(old(self)@),
            old(self)@.shut_down || old(self)@.next_id < u64::MAX,
        ensures
            pool_wf(final(self)@),
            old(self)@.shut_down ==> r == Err::<u64, PoolError>(PoolError::RejectedAfterShutdown)
                && final(self)@ == old(self)@,
            !old(self)@.shut_down ==> r == Ok::<u64, PoolError>(old(self)@.next_id as u64)
                && final(self)@ == spec_execute(old(self)@),
    {
        if self.shut_down {
            return Err(PoolError::RejectedAfterShutdown);
        }
        let id = self.next_id;
        self.next_id = self.next_id + 1;
        self.queue.push(id);
        proof {
            assert(self@ =~= spec_execute(old(self)@));
            lemma_execute_wf(old(self)@);
        }
        Ok(id)
    }

    /// Close the queue: shutdown has begun. No further submission is
    /// accepted; tasks already queued stay queued and will still be drained.
    /// Closing an already closed queue changes nothing.
    pub fn close(&mut self)
        requires
            pool_wf(old(self)@),
        ensures
            pool_wf(final(self)@),
            final(self)@ == spec_close(old(self)@),
    {
        self.shut_down = true;
        proof {
            assert(self@ =~= spec_close(old(self)@));
        }
    }

    /// One worker loop asks for work. If a task is queued, the front of the
    /// queue is dispatched to this worker — it is recorded as executed and
    /// no other worker can receive it. If the queue is empty and closed, the
    /// worker terminates. If the queue is empty but still open, the worker
    /// is told to wait and the pool is unchanged.
    pub fn next_task(&mut self, worker: usize) -> (r: NextTask)
        requires
            pool_wf(old(self)@),
            worker < old(self)@.workers.len(),
            old(self)@.workers[worker as int] is Idle,
        ensures
            pool_wf(final(self)@),
            old(self)@.queue.len() > 0 ==> r == NextTask::Run(old(self)@.queue[0])
                && final(self)@ == spec_dispatch(old(self)@, worker as int),
            old(self)@.queue.len() == 0 && old(self)@.shut_down ==> r == NextTask::Closed
                && final(self)@ == spec_retire(old(self)@, worker as int),
            old(self)@.queue.len() == 0 && !old(self)@.shut_down ==> r == NextTask::Pending
                && final(self)@ == old(self)@,
    {
        if self.queue.len() > 0 {
            let t = self.queue.remove(0);
            self.executed.push(t);
            self.workers[worker] = WorkerState::Running(t);
            proof {
                let m0 = old(self)@;
                assert(self@ =~= spec_dispatch(m0, worker as int));
                lemma_dispatch_wf(m0, worker as int);
            }
            NextTask::Run(t)
        } else if self.shut_down {
            self.workers[worker] = WorkerState::Terminated;
            proof {
                assert(self@ =~= spec_retire(old(self)@, worker as int));
            }
            NextTask::Closed
        } else {
            proof {
                assert(self@ =~= old(self)@);
            }
            NextTask::Pending
        }
    }

    /// The worker loop reports that its task has finished, successfully or
    /// not. Either way the worker is idle again and everything else is
    /// untouched: a failing task never leaves the worker stuck and never
    /// keeps the queued tasks behind it from running.
    pub fn finish_task(&mut self, worker: usize, outcome: TaskOutcome)
        requires
            pool_wf(old(self)@),
            worker < old(self)@.workers.len(),
            old(self)@.workers[worker as int] is Running,
        ensures
            pool_wf(final(self)@),
            final(self)@ == spec_finish(old(self)@, worker as int, outcome),
    {
        self.workers[worker] = WorkerState::Idle;
        proof {
            assert(self@ =~= spec_finish(old(self)@, worker as int, outcome));
        }
    }

    /// Shut the pool down: close the queue, drain every queued task in FIFO
    /// order, and wait for every worker to observe the closed signal and
    /// terminate. When this returns, every task admitted by `execute` has
    /// been executed exactly once and no worker is live. Shutting down an
    /// already terminated pool changes nothing.
    pub fn shutdown(&mut self)
        requires
            pool_wf(old(self)@),
        ensures
            pool_wf(final(self)@),
            final(self)@ == spec_shutdown(old(self)@),
    {
        self.shut_down = true;
        self.executed.append(&mut self.queue);
        let n = self.workers.len();
        let mut i: usize = 0;
        while i < n
            invariant
                i <= n,
                self.workers@.len() == n as nat,
                forall|j: int| 0 <= j < i ==> self.workers@[j] == WorkerState::Terminated,
                self.queue@ == Seq::<u64>::empty(),
                self.executed@ == old(self)@.executed + old(self)@.queue,
                self.next_id == old(self).next_id,
                self.shut_down,
            decreases n - i,
        {
            self.workers[i] = WorkerState::Terminated;
            i += 1;
        }
        proof {
            let m0 = old(self)@;
            assert(self@ =~= spec_shutdown(m0));
            lemma_shutdown_wf(m0);
        }
    }

    /// The number of workers the pool was constructed with.
    pub fn size(&self) -> (r: usize)
        ensures
            r == self@.workers.len(),
    {
        self.workers.len()
    }

    /// The number of tasks admitted but not yet dispatched to a worker.
    pub fn queued(&self) -> (r: usize)
        ensures
            r == self@.queue.len(),
    {
        self.queue.len()
    }

    /// The tickets of the tasks executed so far, in dispatch order.
    pub fn executed_tasks(&self) -> (r: Vec<u64>)
        ensures
            r@ == self@.executed,
    {
        let r = self.executed.clone();
        proof {
            assert(r@ =~= self@.executed);
        }
        r
    }

    /// The state of worker `i`.
    pub fn worker_state(&self, i: usize) -> (r: WorkerState)
        requires
            i < self@.workers.len(),
        ensures
            r == self@.workers[i as int],
    {
        self.workers[i]
    }

    /// The ticket the next accepted submission will receive.
    pub fn next_ticket(&self) -> (r: u64)
        ensures
            r == self@.next_id,
    {
        self.next_id
    }

    /// Whether shutdown has begun.
    pub fn is_shut_down(&self) -> (r: bool)
        ensures
            r == self@.shut_down,
    {
        self.shut_down
    }
}

/// One accepted submission preserves well-formedness: the fresh ticket is
/// larger than every ticket handed out before, so the queue stays free of
/// duplicates and disjoint from the executed record.
pub proof fn lemma_execute_wf(m: PoolModel)
    requires
        pool_wf(m),
        m.next_id < u64::MAX,
    ensures
        pool_wf(spec_execute(m)),
{
    let m1 = spec_execute(m);
    let id = m.next_id as u64;
    assert forall|t: u64| #[trigger] m1.queue.contains(t) implies t == id || m.queue.contains(
        t,
    ) by {
        let k = choose|k: int| 0 <= k < m1.queue.len() && m1.queue[k] == t;
        if k < m.queue.len() {
            assert(m.queue[k] == t);
        }
    }
    assert(!m.executed.contains(id));
    assert(!m.queue.contains(id));
    assert forall|i: int, j: int|
        0 <= i < m1.queue.len() && 0 <= j < m1.queue.len() && i != j implies m1.queue[i]
        != m1.queue[j] by {
        if i < m.queue.len() && j < m.queue.len() {
            assert(m.queue[i] != m.queue[j]);
        } else if i < m.queue.len() {
            assert(m.queue[i] < id && m1.queue[j] == id);
        } else {
            assert(m.queue[j] < id && m1.queue[i] == id);
        }
    }
    assert forall|i: int|
        0 <= i < m1.workers.len() implies match #[trigger] m1.workers[i] {
        WorkerState::Running(t) => m1.executed.contains(t) && !m1.queue.contains(t),
        _ => true,
    } by {
        assert(m1.workers[i] == m.workers[i]);
    }
}

/// Dispatching the queue's front task to an idle worker preserves
/// well-formedness; in particular the task leaves the queue as it enters
/// `executed`, so it can never be handed out a second time.
pub proof fn lemma_dispatch_wf(m: PoolModel, w: int)
    requires
        pool_wf(m),
        0 <= w < m.workers.len(),
        m.workers[w] is Idle,
        m.queue.len() > 0,
    ensures
        pool_wf(spec_dispatch(m, w)),
{
    let m1 = spec_dispatch(m, w);
    let t = m.queue[0];
    assert forall|x: u64| #[trigger] m1.queue.contains(x) implies m.queue.contains(x) && x != t by {
        let k = choose|k: int| 0 <= k < m1.queue.len() && m1.queue[k] == x;
        assert(m.queue[k + 1] == x);
        assert(m.queue[0] != m.queue[k + 1]);
    }
    assert(m.queue.contains(t));
    assert forall|i: int, j: int|
        0 <= i < m1.executed.len() && 0 <= j < m1.executed.len() && i != j implies m1.executed[i]
        != m1.executed[j] by {
        if i < m.executed.len() && j < m.executed.len() {
            assert(m.executed[i] != m.executed[j]);
        } else if i < m.executed.len() {
            assert(m.executed.contains(m.executed[i]));
            assert(m1.executed[j] == t);
        } else {
            assert(m.executed.contains(m.executed[j]));
            assert(m1.executed[i] == t);
        }
    }
    assert forall|x: u64| #[trigger] m1.executed.contains(x) implies x == t || m.executed.contains(
        x,
    ) by {
        let k = choose|k: int| 0 <= k < m1.executed.len() && m1.executed[k] == x;
        if k < m.executed.len() {
            assert(m.executed[k] == x);
        }
    }
    assert forall|i: int|
        0 <= i < m1.workers.len() implies match #[trigger] m1.workers[i] {
        WorkerState::Running(x) => m1.executed.contains(x) && !m1.queue.contains(x),
        _ => true,
    } by {
        if i != w {
            assert(m1.workers[i] == m.workers[i]);
        }
        match m1.workers[i] {
            WorkerState::Running(x) => {
                assert(m1.executed.contains(x)) by {
                    if i == w {
                        assert(m1.executed[m1.executed.len() - 1] == t);
                    } else {
                        let k = choose|k: int|
                            0 <= k < m.executed.len() && m.executed[k] == x;
                        assert(m1.executed[k] == x);
                    }
                }
            },
            _ => {},
        }
    }
    assert forall|i: int, j: int|
        0 <= i < m1.workers.len() && 0 <= j < m1.workers.len() && i != j && running_task(
            m1.workers[i],
        ) is Some implies running_task(m1.workers[i]) != running_task(m1.workers[j]) by {
        if i == w {
            assert(running_task(m1.workers[i]) == Some(t));
            match m1.workers[j] {
                WorkerState::Running(x) => {
                    assert(running_task(m.workers[j]) == Some(x));
                    assert(!m.queue.contains(x));
                },
                _ => {},
            }
        } else if j == w {
            match m1.workers[i] {
                WorkerState::Running(x) => {
                    assert(running_task(m.workers[i]) == Some(x));
                    assert(!m.queue.contains(x));
                },
                _ => {},
            }
        } else {
            assert(running_task(m.workers[i]) is Some ==> running_task(m.workers[i])
                != running_task(m.workers[j]));
        }
    }
}

/// Shutdown preserves well-formedness: the executed record stays free of
/// duplicates because the drained queue was disjoint from it.
pub proof fn lemma_shutdown_wf(m: PoolModel)
    requires
        pool_wf(m),
    ensures
        pool_wf(spec_shutdown(m)),
{
    let m1 = spec_shutdown(m);
    assert forall|i: int, j: int|
        0 <= i < m1.executed.len() && 0 <= j < m1.executed.len() && i != j implies m1.executed[i]
        != m1.executed[j] by {
        let el = m.executed.len() as int;
        if i < el && j < el {
            assert(m.executed[i] != m.executed[j]);
        } else if i < el {
            assert(m.queue.contains(m.queue[j - el]));
            assert(m.executed.contains(m.executed[i]));
        } else if j < el {
            assert(m.queue.contains(m.queue[i - el]));
            assert(m.executed.contains(m.executed[j]));
        } else {
            assert(m.queue[i - el] != m.queue[j - el]);
        }
    }
}

} // verus!


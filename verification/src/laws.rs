//! The laws of the worker pool, stated over the pool's mathematical model
//! and proved from the same transitions that the executable operations
//! promise in their contracts.

use vstd::prelude::*;

use crate::pool::lemma_execute_wf;
use crate::pool::lemma_shutdown_wf;
use crate::pool::pool_wf;
use crate::pool::running_task;
use crate::pool::spec_create;
use crate::pool::spec_execute;
use crate::pool::spec_finish;
use crate::pool::spec_shutdown;
use crate::pool::PoolModel;
use crate::pool::TaskOutcome;

verus! {

/// The state after `n` further accepted submissions.
pub open spec fn spec_execute_n(m: PoolModel, n: nat) -> PoolModel
    decreases n,
{
    if n == 0 {
        m
    } else {
        spec_execute(spec_execute_n(m, (n - 1) as nat))
    }
}

/// The tickets `start, start + 1, ..., start + n - 1`, in order.
pub open spec fn tickets(start: nat, n: nat) -> Seq<u64> {
    Seq::new(n, |i: int| (start + i) as u64)
}

/// Submissions in sequence: `n` accepted submissions append the `n` fresh
/// tickets to the back of the queue, advance the ticket counter by `n`, and
/// touch nothing else.
pub proof fn lemma_execute_n_shape(m: PoolModel, n: nat)
    requires
        m.next_id + n <= u64::MAX,
    ensures
        spec_execute_n(m, n).next_id == m.next_id + n,
        spec_execute_n(m, n).queue =~= m.queue + tickets(m.next_id, n),
        spec_execute_n(m, n).executed == m.executed,
        spec_execute_n(m, n).workers == m.workers,
        spec_execute_n(m, n).shut_down == m.shut_down,
    decreases n,
{
    if n == 0 {
        assert(m.queue + tickets(m.next_id, 0) =~= m.queue);
    } else {
        lemma_execute_n_shape(m, (n - 1) as nat);
        let prev = spec_execute_n(m, (n - 1) as nat);
        assert(prev.queue.push(prev.next_id as u64) =~= m.queue + tickets(m.next_id, n));
    }
}

/// `n` accepted submissions preserve well-formedness.
pub proof fn lemma_execute_n_wf(m: PoolModel, n: nat)
    requires
        pool_wf(m),
        m.next_id + n <= u64::MAX,
    ensures
        pool_wf(spec_execute_n(m, n)),
    decreases n,
{
    if n > 0 {
        lemma_execute_n_wf(m, (n - 1) as nat);
        lemma_execute_n_shape(m, (n - 1) as nat);
        lemma_execute_wf(spec_execute_n(m, (n - 1) as nat));
    }
}

/// Drain to completion: submitting `n` tasks before shutdown and then
/// shutting down guarantees that each of the `n` tasks has been executed,
/// and executed exactly once, by the time shutdown returns.
pub proof fn lemma_submitted_tasks_all_execute(m: PoolModel, n: nat)
    requires
        pool_wf(m),
        m.next_id + n <= u64::MAX,
    ensures
        spec_shutdown(spec_execute_n(m, n)).executed.no_duplicates(),
        forall|k: nat|
            k < n ==> #[trigger] spec_shutdown(spec_execute_n(m, n)).executed.contains(
                ((m.next_id + k) as u64),
            ),
{
    lemma_execute_n_shape(m, n);
    lemma_execute_n_wf(m, n);
    let m1 = spec_execute_n(m, n);
    lemma_shutdown_wf(m1);
    let fin = spec_shutdown(m1);
    assert(fin.executed =~= m.executed + m.queue + tickets(m.next_id, n));
    assert forall|k: nat| k < n implies #[trigger] fin.executed.contains(
        ((m.next_id + k) as u64),
    ) by {
        let pos = m.executed.len() + m.queue.len() + k;
        assert(fin.executed[pos as int] == tickets(m.next_id, n)[k as int]);
    }
}

/// Mutual exclusion and at-most-once execution: in every well-formed pool
/// state no ticket stands twice in the executed record, and two distinct
/// workers never run the same task at the same time.
pub proof fn lemma_task_executed_at_most_once(m: PoolModel, i: int, j: int)
    requires
        pool_wf(m),
        0 <= i < m.workers.len(),
        0 <= j < m.workers.len(),
        i != j,
    ensures
        m.executed.no_duplicates(),
        running_task(m.workers[i]) is Some ==> running_task(m.workers[i]) != running_task(
            m.workers[j],
        ),
{
}

/// Failure containment: finishing a task leaves the pool in the very same
/// state whether the task completed or failed, the worker is idle again,
/// and a later shutdown still executes exactly the tasks that were queued.
pub proof fn lemma_task_failure_contained(m: PoolModel, w: int, outcome: TaskOutcome)
    requires
        pool_wf(m),
        0 <= w < m.workers.len(),
        m.workers[w] is Running,
    ensures
        spec_finish(m, w, outcome) == spec_finish(m, w, TaskOutcome::Completed),
        spec_finish(m, w, outcome).workers[w] is Idle,
        spec_shutdown(spec_finish(m, w, outcome)).executed == spec_shutdown(m).executed,
{
    assert(spec_finish(m, w, outcome) =~= spec_finish(m, w, TaskOutcome::Completed));
}

/// Shutdown is idempotent: a second shutdown ends in exactly the state the
/// first one ended in.
pub proof fn lemma_shutdown_idempotent(m: PoolModel)
    ensures
        spec_shutdown(spec_shutdown(m)) == spec_shutdown(m),
{
    assert(spec_shutdown(spec_shutdown(m)) =~= spec_shutdown(m));
}

/// Eager construction: a pool of `size` workers starts with exactly `size`
/// workers, each of them live and idle, before any task is accepted.
pub proof fn lemma_create_spawns_all_workers(size: nat)
    requires
        size > 0,
    ensures
        spec_create(size).workers.len() == size,
        forall|i: int| 0 <= i < size ==> #[trigger] spec_create(size).workers[i] is Idle,
        spec_create(size).queue.len() == 0,
        spec_create(size).executed.len() == 0,
        !spec_create(size).shut_down,
        pool_wf(spec_create(size)),
{
}

} // verus!

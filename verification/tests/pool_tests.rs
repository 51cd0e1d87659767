use worker_pool::pool::NextTask;
use worker_pool::pool::PoolError;
use worker_pool::pool::TaskOutcome;
use worker_pool::pool::ThreadPool;
use worker_pool::pool::WorkerState;

#[test]
fn creation_spawns_exactly_size_idle_workers() {
    let pool = ThreadPool::new(5).unwrap();
    assert_eq!(pool.size(), 5);
    for i in 0..5 {
        assert_eq!(pool.worker_state(i), WorkerState::Idle);
    }
    assert_eq!(pool.queued(), 0);
    assert!(pool.executed_tasks().is_empty());
    assert!(!pool.is_shut_down());
}

#[test]
fn creation_with_zero_workers_fails() {
    match ThreadPool::new(0) {
        Err(PoolError::ConstructionError) => {}
        _ => panic!("a pool of zero workers must be rejected"),
    }
}

#[test]
fn submissions_are_acknowledged_in_order() {
    let mut pool = ThreadPool::new(2).unwrap();
    for expected in 0..5u64 {
        assert_eq!(pool.execute(), Ok(expected));
    }
    assert_eq!(pool.queued(), 5);
}

#[test]
fn shutdown_drains_every_queued_task_in_fifo_order() {
    let mut pool = ThreadPool::new(2).unwrap();
    let mut submitted = Vec::new();
    for _ in 0..5 {
        submitted.push(pool.execute().unwrap());
    }
    pool.shutdown();
    assert_eq!(pool.executed_tasks(), submitted);
    assert_eq!(pool.queued(), 0);
    for i in 0..2 {
        assert_eq!(pool.worker_state(i), WorkerState::Terminated);
    }
}

#[test]
fn execute_after_shutdown_is_rejected() {
    let mut pool = ThreadPool::new(1).unwrap();
    pool.execute().unwrap();
    pool.shutdown();
    assert_eq!(pool.execute(), Err(PoolError::RejectedAfterShutdown));
    assert_eq!(pool.executed_tasks().len(), 1);
}

#[test]
fn execute_after_close_is_rejected_but_queue_is_kept() {
    let mut pool = ThreadPool::new(1).unwrap();
    let t = pool.execute().unwrap();
    pool.close();
    assert_eq!(pool.execute(), Err(PoolError::RejectedAfterShutdown));
    assert_eq!(pool.queued(), 1);
    pool.shutdown();
    assert_eq!(pool.executed_tasks(), vec![t]);
}

#[test]
fn workers_never_share_a_task() {
    let mut pool = ThreadPool::new(2).unwrap();
    let t0 = pool.execute().unwrap();
    let t1 = pool.execute().unwrap();
    assert_eq!(pool.next_task(0), NextTask::Run(t0));
    assert_eq!(pool.next_task(1), NextTask::Run(t1));
    assert_ne!(t0, t1);
    assert_eq!(pool.worker_state(0), WorkerState::Running(t0));
    assert_eq!(pool.worker_state(1), WorkerState::Running(t1));
}

#[test]
fn idle_worker_waits_while_queue_is_open_and_empty() {
    let mut pool = ThreadPool::new(1).unwrap();
    assert_eq!(pool.next_task(0), NextTask::Pending);
    assert_eq!(pool.worker_state(0), WorkerState::Idle);
    assert!(!pool.is_shut_down());
}

#[test]
fn worker_terminates_only_on_closed_and_drained_queue() {
    let mut pool = ThreadPool::new(1).unwrap();
    let t = pool.execute().unwrap();
    pool.close();
    assert_eq!(pool.next_task(0), NextTask::Run(t));
    pool.finish_task(0, TaskOutcome::Completed);
    assert_eq!(pool.next_task(0), NextTask::Closed);
    assert_eq!(pool.worker_state(0), WorkerState::Terminated);
}

#[test]
fn failed_task_leaves_worker_serving() {
    let mut pool = ThreadPool::new(1).unwrap();
    let t0 = pool.execute().unwrap();
    let t1 = pool.execute().unwrap();
    assert_eq!(pool.next_task(0), NextTask::Run(t0));
    pool.finish_task(0, TaskOutcome::Failed);
    assert_eq!(pool.worker_state(0), WorkerState::Idle);
    assert_eq!(pool.next_task(0), NextTask::Run(t1));
    pool.finish_task(0, TaskOutcome::Completed);
    assert_eq!(pool.executed_tasks(), vec![t0, t1]);
}

#[test]
fn shutdown_is_idempotent() {
    let mut pool = ThreadPool::new(3).unwrap();
    for _ in 0..4 {
        pool.execute().unwrap();
    }
    pool.shutdown();
    let executed_once = pool.executed_tasks();
    pool.shutdown();
    assert_eq!(pool.executed_tasks(), executed_once);
    assert_eq!(pool.size(), 3);
    assert_eq!(pool.queued(), 0);
    assert!(pool.is_shut_down());
    for i in 0..3 {
        assert_eq!(pool.worker_state(i), WorkerState::Terminated);
    }
}

#[test]
fn hundred_tasks_ten_submitters_four_workers() {
    let mut pool = ThreadPool::new(4).unwrap();
    let mut submitted = Vec::new();
    // ten submitting contexts, interleaved, ten tasks each
    for _round in 0..10 {
        for _submitter in 0..10 {
            submitted.push(pool.execute().unwrap());
        }
        // workers make progress between submission rounds
        for w in 0..4 {
            if let NextTask::Run(_) = pool.next_task(w) {
                pool.finish_task(w, TaskOutcome::Completed);
            }
        }
    }
    pool.shutdown();
    let executed = pool.executed_tasks();
    assert_eq!(executed.len(), 100);
    let mut runs_each = vec![0u32; 100];
    for t in &executed {
        runs_each[*t as usize] += 1;
    }
    assert!(runs_each.iter().all(|&n| n == 1));
    assert_eq!(submitted.len(), 100);
    for w in 0..4 {
        assert_eq!(pool.worker_state(w), WorkerState::Terminated);
    }
}

#[test]
fn failing_closure_then_counter_closure_on_one_worker() {
    let mut pool = ThreadPool::new(1).unwrap();
    let t_fail = pool.execute().unwrap();
    let t_incr = pool.execute().unwrap();
    let mut counter: u64 = 0;
    // the worker loop, driven by hand: the first task raises a failure, the
    // second increments the shared counter
    loop {
        match pool.next_task(0) {
            NextTask::Run(t) => {
                if t == t_fail {
                    pool.finish_task(0, TaskOutcome::Failed);
                } else {
                    counter += 1;
                    pool.finish_task(0, TaskOutcome::Completed);
                }
            }
            NextTask::Pending => {
                pool.close();
            }
            NextTask::Closed => break,
        }
    }
    pool.shutdown();
    assert_eq!(counter, 1);
    assert_eq!(pool.executed_tasks(), vec![t_fail, t_incr]);
    assert_eq!(pool.worker_state(0), WorkerState::Terminated);
}

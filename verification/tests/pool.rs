use tcp_core::pool::Message;
use tcp_core::pool::Mode;
use tcp_core::pool::PoolError;
use tcp_core::pool::ThreadPool;
use tcp_core::pool::Worker;
use tcp_core::pool::WorkerState;

#[test]
fn zero_size_pool_fails_before_any_worker_is_spawned() {
    let r = ThreadPool::new(0, Mode::Quiet);
    assert_eq!(r.err(), Some(PoolError::ZeroSize));
}

#[test]
fn new_pool_has_idle_workers_with_bound_identities() {
    let p = ThreadPool::new(3, Mode::Verbose).unwrap();
    assert_eq!(p.workers.len(), 3);
    for (i, w) in p.workers.iter().enumerate() {
        assert_eq!(w.id, i);
        assert_eq!(w.state, WorkerState::Idle);
    }
    assert!(p.queue.is_empty());
    assert!(p.completed.is_empty());
    assert!(!p.terminating);
}

#[test]
fn worker_new_starts_idle() {
    let w = Worker::new(5);
    assert_eq!(w.id, 5);
    assert_eq!(w.state, WorkerState::Idle);
}

#[test]
fn execute_enqueues_in_fifo_order() {
    let mut p = ThreadPool::new(1, Mode::Quiet).unwrap();
    p.execute(10);
    p.execute(11);
    p.execute(12);
    assert_eq!(
        p.queue,
        vec![Message::NewJob(10), Message::NewJob(11), Message::NewJob(12)]
    );
}

#[test]
fn claim_takes_the_oldest_job_and_finish_records_it() {
    let mut p = ThreadPool::new(2, Mode::Quiet).unwrap();
    p.execute(7);
    p.execute(8);
    let m = p.claim(0);
    assert_eq!(m, Message::NewJob(7));
    assert_eq!(p.workers[0].state, WorkerState::Busy(7));
    p.finish(0);
    assert_eq!(p.workers[0].state, WorkerState::Idle);
    assert_eq!(p.completed, vec![7]);
    assert_eq!(p.queue, vec![Message::NewJob(8)]);
}

#[test]
fn teardown_runs_every_accepted_job_exactly_once() {
    let mut p = ThreadPool::new(4, Mode::Quiet).unwrap();
    for job in [1, 2, 3, 4, 5] {
        p.execute(job);
    }
    p.shutdown();
    assert_eq!(p.completed, vec![1, 2, 3, 4, 5]);
    assert!(p.queue.is_empty());
    assert!(p.terminating);
    for w in p.workers.iter() {
        assert_eq!(w.state, WorkerState::Done);
    }
}

#[test]
fn teardown_of_an_idle_pool_only_stops_the_workers() {
    let mut p = ThreadPool::new(2, Mode::Verbose).unwrap();
    p.shutdown();
    assert!(p.completed.is_empty());
    for w in p.workers.iter() {
        assert_eq!(w.state, WorkerState::Done);
    }
}

#[test]
fn pool_of_two_runs_five_jobs_at_most_two_at_a_time() {
    // Five long-running jobs on a pool of two: only two workers
    // exist, so at most two jobs are ever in flight; all five run.
    let mut p = ThreadPool::new(2, Mode::Quiet).unwrap();
    for job in [20, 21, 22, 23, 24] {
        p.execute(job);
    }
    // Both workers claim; no third job can be in flight, because no
    // worker is idle any more.
    p.claim(0);
    p.claim(1);
    let busy = p
        .workers
        .iter()
        .filter(|w| matches!(w.state, WorkerState::Busy(_)))
        .count();
    assert_eq!(busy, 2);
    let idle = p
        .workers
        .iter()
        .filter(|w| w.state == WorkerState::Idle)
        .count();
    assert_eq!(idle, 0);
    p.finish(1);
    p.finish(0);
    assert_eq!(p.completed, vec![21, 20]);
    // The rest drain during teardown; every job ran exactly once.
    p.shutdown();
    let mut seen = p.completed.clone();
    seen.sort();
    assert_eq!(seen, vec![20, 21, 22, 23, 24]);
    assert_eq!(p.completed.len(), 5);
}

#[test]
fn mode_is_purely_observational() {
    let quiet = ThreadPool::new(1, Mode::Quiet).unwrap();
    let verbose = ThreadPool::new(1, Mode::Verbose).unwrap();
    assert_eq!(quiet.mode, Mode::Quiet);
    assert_eq!(verbose.mode, Mode::Verbose);
    assert_eq!(quiet.workers.len(), verbose.workers.len());
}

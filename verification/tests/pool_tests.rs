use rustbuster::job::Job;
use rustbuster::model::WorkerState;
use rustbuster::pool::{Message, PoolError, ThreadPool};

fn job(path: &str) -> Job {
    Job { path: path.to_string() }
}

#[test]
fn empty_pool_shuts_down_cleanly() {
    let mut pool = ThreadPool::new(3);
    assert_eq!(pool.worker_count(), 3);
    let finished = pool.shutdown();
    assert!(finished.is_empty());
    assert_eq!(pool.pending(), 0);
    for w in 0..3 {
        assert_eq!(pool.worker_state(w), WorkerState::Terminated);
    }
}

#[test]
fn every_pool_size_drains_and_exits() {
    for n in 1..6 {
        let mut pool = ThreadPool::new(n);
        let finished = pool.shutdown();
        assert!(finished.is_empty());
        for w in 0..n {
            assert_eq!(pool.worker_state(w), WorkerState::Terminated);
        }
    }
}

#[test]
fn all_jobs_run_before_teardown_in_order() {
    let mut pool = ThreadPool::new(2);
    for name in ["j1", "j2", "j3", "j4", "j5"] {
        pool.execute(job(name));
    }
    assert_eq!(pool.pending(), 5);
    let finished = pool.shutdown();
    let got: Vec<String> = finished.into_iter().map(|j| j.path).collect();
    let want: Vec<String> = ["j1", "j2", "j3", "j4", "j5"]
        .iter()
        .map(|s| s.to_string())
        .collect();
    assert_eq!(got, want);
    assert_eq!(pool.pending(), 0);
    for w in 0..2 {
        assert_eq!(pool.worker_state(w), WorkerState::Terminated);
    }
}

#[test]
fn interleaved_producers_lose_nothing() {
    let mut pool = ThreadPool::new(4);
    // one serialization of two producers submitting concurrently
    for name in ["a1", "b1", "a2", "b2", "a3"] {
        pool.execute(job(name));
    }
    let finished = pool.shutdown();
    let got: Vec<String> = finished.into_iter().map(|j| j.path).collect();
    for name in ["a1", "a2", "a3", "b1", "b2"] {
        assert_eq!(got.iter().filter(|p| p.as_str() == name).count(), 1);
    }
    assert_eq!(got.len(), 5);
}

#[test]
fn blocked_worker_leaves_others_draining() {
    let mut pool = ThreadPool::new(2);
    pool.execute(job("hang"));
    match pool.receive(0) {
        Some(Message::NewJob(j)) => assert_eq!(j.path, "hang"),
        _ => panic!("expected the hanging job"),
    }
    // worker 0 never completes its job
    assert_eq!(pool.worker_state(0), WorkerState::Executing);
    for name in ["f1", "f2", "f3"] {
        pool.execute(job(name));
    }
    let mut done: Vec<String> = Vec::new();
    for _ in 0..3 {
        match pool.receive(1) {
            Some(Message::NewJob(j)) => {
                pool.complete(1);
                done.push(j.path);
            }
            _ => panic!("expected a job for the free worker"),
        }
    }
    let want: Vec<String> = ["f1", "f2", "f3"].iter().map(|s| s.to_string()).collect();
    assert_eq!(done, want);
    assert_eq!(pool.worker_state(0), WorkerState::Executing);
    assert_eq!(pool.worker_state(1), WorkerState::Idle);
    assert_eq!(pool.pending(), 0);
}

#[test]
fn receive_is_fifo_across_workers() {
    let mut pool = ThreadPool::new(3);
    for name in ["first", "second", "third"] {
        pool.execute(job(name));
    }
    let mut seen: Vec<String> = Vec::new();
    for w in 0..3 {
        match pool.receive(w) {
            Some(Message::NewJob(j)) => seen.push(j.path),
            _ => panic!("expected a job"),
        }
    }
    let want: Vec<String> = ["first", "second", "third"]
        .iter()
        .map(|s| s.to_string())
        .collect();
    assert_eq!(seen, want);
}

#[test]
fn receive_on_empty_queue_returns_none() {
    let mut pool = ThreadPool::new(1);
    assert!(pool.receive(0).is_none());
    assert_eq!(pool.worker_state(0), WorkerState::Idle);
}

#[test]
fn zero_workers_fails_fast() {
    match ThreadPool::try_new(0) {
        Err(e) => {
            assert!(matches!(e, PoolError::ZeroWorkers));
            assert_eq!(e.message(), "a thread pool needs at least one worker");
        }
        Ok(_) => panic!("a zero-worker pool must be refused"),
    }
    assert!(ThreadPool::try_new(1).is_ok());
}

use scrying::pool::PoolAction;
use scrying::ThreadStatus;
use scrying::WorkerPool;

#[test]
fn pool_respects_the_concurrency_bound() {
    // five targets, at most two workers in flight
    let mut pool = WorkerPool::new(2, 5);
    let mut max_seen = 0;

    assert_eq!(pool.step(false, false), PoolAction::Spawn(0));
    max_seen = max_seen.max(pool.active);
    assert_eq!(pool.step(false, false), PoolAction::Spawn(1));
    max_seen = max_seen.max(pool.active);
    // both slots busy: nothing to admit
    assert_eq!(pool.step(false, false), PoolAction::Continue);
    max_seen = max_seen.max(pool.active);
    // a completion frees one slot
    assert_eq!(pool.step(true, false), PoolAction::Spawn(2));
    max_seen = max_seen.max(pool.active);
    assert_eq!(pool.step(true, false), PoolAction::Spawn(3));
    max_seen = max_seen.max(pool.active);
    assert_eq!(pool.step(true, false), PoolAction::Spawn(4));
    max_seen = max_seen.max(pool.active);
    // both slots still busy: keep polling
    assert_eq!(pool.step(false, false), PoolAction::Continue);
    max_seen = max_seen.max(pool.active);
    // a slot frees up and the list is exhausted: drain and join
    assert_eq!(pool.step(true, false), PoolAction::Drain);
    max_seen = max_seen.max(pool.active);

    assert!(max_seen <= 2);
    assert_eq!(pool.next_target, 5);
}

#[test]
fn cancellation_stops_admissions() {
    let mut pool = WorkerPool::new(3, 10);
    assert_eq!(pool.step(false, false), PoolAction::Spawn(0));
    assert_eq!(pool.step(false, true), PoolAction::Drain);
    // the in-flight worker was not torn down
    assert_eq!(pool.active, 1);
    assert_eq!(pool.next_target, 1);
}

#[test]
fn completions_without_capacity_only_shrink_the_pool() {
    let mut pool = WorkerPool::new(1, 1);
    assert_eq!(pool.step(false, false), PoolAction::Spawn(0));
    assert_eq!(pool.active, 1);
    assert_eq!(pool.step(true, false), PoolAction::Drain);
    assert_eq!(pool.active, 0);
}

#[test]
fn thread_status_reports_completion() {
    let status = ThreadStatus::Complete;
    assert!(matches!(status, ThreadStatus::Complete));
}

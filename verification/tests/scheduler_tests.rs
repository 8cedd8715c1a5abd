use pentaract::errors::PentaractError;
use pentaract::scheduler::WorkerPool;

fn pool_with_two_workers() -> WorkerPool {
    let mut pool = WorkerPool::new(3, 60);
    pool.register_worker(1, String::from("SECRET-REDACTED-ONE"));
    pool.register_worker(2, String::from("SECRET-REDACTED-TWO"));
    pool
}

#[test]
fn two_leases_never_share_a_credential() {
    let mut pool = pool_with_two_workers();
    let c1 = pool.acquire(0).unwrap();
    let c2 = pool.acquire(0).unwrap();
    assert_ne!(c1.serial, c2.serial);
}

#[test]
fn round_robin_spreads_load_over_healthy_workers() {
    let mut pool = pool_with_two_workers();
    let c1 = pool.acquire(0).unwrap();
    let c2 = pool.acquire(0).unwrap();
    let c3 = pool.acquire(0).unwrap();
    assert_ne!(c1.worker_id, c2.worker_id);
    assert_eq!(c1.worker_id, c3.worker_id);
}

#[test]
fn empty_pool_has_no_workers_available() {
    let mut pool = WorkerPool::new(3, 60);
    let e = pool.acquire(0).unwrap_err();
    assert!(matches!(e, PentaractError::NoWorkersAvailable));
}

#[test]
fn consecutive_failures_degrade_a_worker_for_the_cooldown() {
    let mut pool = WorkerPool::new(2, 60);
    pool.register_worker(7, String::from("SECRET-REDACTED"));
    pool.report_outcome(7, false, 0);
    // one failure is below the threshold: still healthy
    assert!(pool.acquire(0).is_ok());
    pool.report_outcome(7, false, 0);
    // second consecutive failure reaches the threshold: degraded until 60
    let e = pool.acquire(0).unwrap_err();
    assert!(matches!(e, PentaractError::NoWorkersAvailable));
    assert!(pool.acquire(59).is_err());
    // the cool-down window has elapsed
    assert!(pool.acquire(60).is_ok());
}

#[test]
fn a_success_resets_the_failure_streak() {
    let mut pool = WorkerPool::new(2, 60);
    pool.register_worker(7, String::from("SECRET-REDACTED"));
    pool.report_outcome(7, false, 0);
    pool.report_outcome(7, true, 0);
    pool.report_outcome(7, false, 0);
    // the streak restarted, so the threshold of 2 was never reached
    assert!(pool.acquire(0).is_ok());
}

#[test]
fn acquire_skips_degraded_workers_and_uses_the_healthy_one() {
    let mut pool = pool_with_two_workers();
    // degrade worker 1
    pool.report_outcome(1, false, 0);
    pool.report_outcome(1, false, 0);
    pool.report_outcome(1, false, 0);
    for _ in 0..4 {
        let c = pool.acquire(1).unwrap();
        assert_eq!(c.worker_id, 2);
    }
}

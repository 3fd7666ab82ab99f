use controlplane::addr::WorkerAddr;
use controlplane::registry::{ConnectError, Registry, WorkerStatus};

#[test]
fn register_creates_healthy_entries() {
    let mut r = Registry::new();
    let w1 = WorkerAddr::new(10, 0, 0, 1, 9000);
    let w2 = WorkerAddr::new(10, 0, 0, 2, 9000);
    assert_eq!(r.register(w1, 100, Ok(1)), Ok(()));
    assert_eq!(r.register(w2, 110, Ok(2)), Ok(()));
    assert_eq!(r.len(), 2);
    assert_eq!(
        r.get(w1),
        Some(WorkerStatus { healthy: true, last_heartbeat: 100, sender: Some(1) })
    );
    assert_eq!(
        r.get(w2),
        Some(WorkerStatus { healthy: true, last_heartbeat: 110, sender: Some(2) })
    );
}

#[test]
fn reregister_overwrites_instead_of_duplicating() {
    let mut r = Registry::new();
    let w1 = WorkerAddr::new(10, 0, 0, 1, 9000);
    assert_eq!(r.register(w1, 100, Ok(1)), Ok(()));
    assert_eq!(r.register(w1, 150, Ok(9)), Ok(()));
    assert_eq!(r.len(), 1);
    assert_eq!(
        r.get(w1),
        Some(WorkerStatus { healthy: true, last_heartbeat: 150, sender: Some(9) })
    );
}

#[test]
fn heartbeat_refreshes_known_worker() {
    let mut r = Registry::new();
    let w1 = WorkerAddr::new(10, 0, 0, 1, 9000);
    r.register(w1, 100, Ok(1)).unwrap();
    assert!(r.record_heartbeat(w1, 140));
    assert_eq!(r.get(w1).unwrap().last_heartbeat, 140);
    // a clock reading that coincides leaves the stamp unchanged
    assert!(r.record_heartbeat(w1, 140));
    assert_eq!(r.get(w1).unwrap().last_heartbeat, 140);
}

#[test]
fn heartbeat_never_restores_health() {
    let mut r = Registry::new();
    let w1 = WorkerAddr::new(10, 0, 0, 1, 9000);
    r.register(w1, 100, Ok(1)).unwrap();
    let failed = r.sweep_liveness(30, 131);
    assert_eq!(failed, vec![w1]);
    assert!(!r.get(w1).unwrap().healthy);
    // a fresh heartbeat refreshes the stamp but not the flag
    assert!(r.record_heartbeat(w1, 140));
    let st = r.get(w1).unwrap();
    assert_eq!(st.last_heartbeat, 140);
    assert!(!st.healthy);
}

#[test]
fn heartbeat_for_unknown_worker_changes_nothing() {
    let mut r = Registry::new();
    let w1 = WorkerAddr::new(10, 0, 0, 1, 9000);
    let stranger = WorkerAddr::new(192, 168, 0, 7, 4000);
    r.register(w1, 100, Ok(1)).unwrap();
    assert!(!r.record_heartbeat(stranger, 200));
    assert_eq!(r.len(), 1);
    assert_eq!(
        r.get(w1),
        Some(WorkerStatus { healthy: true, last_heartbeat: 100, sender: Some(1) })
    );
    assert_eq!(r.get(stranger), None);
}

#[test]
fn sweep_threshold_is_strict() {
    // heartbeatEvery = 10, so the liveness threshold is 30
    let mut r = Registry::new();
    let w1 = WorkerAddr::new(10, 0, 0, 1, 9000);
    r.register(w1, 100, Ok(1)).unwrap();
    // elapsed is exactly the threshold: still healthy
    let failed = r.sweep_liveness(30, 130);
    assert!(failed.is_empty());
    assert!(r.get(w1).unwrap().healthy);
    // one tick beyond: demoted
    let failed = r.sweep_liveness(30, 131);
    assert_eq!(failed, vec![w1]);
    assert!(!r.get(w1).unwrap().healthy);
}

#[test]
fn sweep_reports_a_failure_only_once() {
    let mut r = Registry::new();
    let w1 = WorkerAddr::new(10, 0, 0, 1, 9000);
    r.register(w1, 100, Ok(1)).unwrap();
    assert_eq!(r.sweep_liveness(30, 131), vec![w1]);
    assert_eq!(r.sweep_liveness(30, 200), Vec::<WorkerAddr>::new());
    assert_eq!(r.sweep_liveness(30, 300), Vec::<WorkerAddr>::new());
}

#[test]
fn failed_connect_leaves_no_entry() {
    let mut r = Registry::new();
    let w1 = WorkerAddr::new(10, 0, 0, 1, 9000);
    assert_eq!(
        r.register(w1, 100, Err(ConnectError::Refused)),
        Err(ConnectError::Refused)
    );
    assert_eq!(r.len(), 0);
    assert_eq!(r.get(w1), None);
    assert!(!r.contains(w1));
    assert_eq!(
        r.register(w1, 110, Err(ConnectError::Unreachable)),
        Err(ConnectError::Unreachable)
    );
    assert_eq!(
        r.register(w1, 120, Err(ConnectError::TimedOut)),
        Err(ConnectError::TimedOut)
    );
    assert_eq!(r.len(), 0);
}

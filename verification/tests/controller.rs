use controlplane::addr::WorkerAddr;
use controlplane::controller::{
    AdmitWorker, ConnectRequest, Controller, CoordinationMessage, CoordinationPayload, Dispatch,
    Event,
};
use controlplane::registry::{ConnectError, WorkerStatus};

#[test]
fn scenario_a_register_with_successful_callback_connect() {
    // W1 at 10.0.0.1:9000 registers with callback 10.0.0.1:9001
    let mut c = Controller::new("0.0.0.0", 6033, 10, 5, 0);
    let w1 = WorkerAddr::new(10, 0, 0, 1, 9000);
    let cb = WorkerAddr::new(10, 0, 0, 1, 9001);
    let msg = CoordinationMessage { source: w1, payload: CoordinationPayload::Register(cb) };
    let d = c.handle(&msg, 1);
    assert_eq!(d, Dispatch::Connect { source: w1, callback: cb });
    // nothing is recorded until the outbound connect succeeds
    assert_eq!(c.worker_count(), 0);
    let r = c.handle_register(w1, 2, Ok(41));
    assert_eq!(r, Ok(AdmitWorker { addr: w1, sender: 41 }));
    assert_eq!(c.worker_count(), 1);
    assert_eq!(
        c.worker_status(w1),
        Some(WorkerStatus { healthy: true, last_heartbeat: 2, sender: Some(41) })
    );
}

#[test]
fn scenario_b_silent_worker_is_marked_failed_exactly_once() {
    // heartbeatEvery = 10 (threshold 30), healthcheckEvery = 15
    let mut c = Controller::new("0.0.0.0", 6033, 10, 15, 0);
    let w1 = WorkerAddr::new(10, 0, 0, 1, 9000);
    c.handle_register(w1, 0, Ok(1)).unwrap();
    // first sweep: healthcheckEvery has elapsed, but W1 is not yet stale
    let out = c.step(Event::Timer, 16);
    assert!(out.newly_failed.is_empty());
    assert!(c.worker_status(w1).unwrap().healthy);
    // second sweep: total elapsed exceeds three heartbeat periods
    let out = c.step(Event::Timer, 32);
    assert_eq!(out.newly_failed, vec![w1]);
    assert!(!c.worker_status(w1).unwrap().healthy);
    // later sweeps do not report it again
    let out = c.step(Event::Timer, 48);
    assert!(out.newly_failed.is_empty());
    let out = c.step(Event::Timer, 64);
    assert!(out.newly_failed.is_empty());
}

#[test]
fn scenario_c_unknown_heartbeat_leaves_registered_workers_alone() {
    let mut c = Controller::new("0.0.0.0", 6033, 10, 5, 0);
    let w1 = WorkerAddr::new(10, 0, 0, 1, 9000);
    let w2 = WorkerAddr::new(10, 0, 0, 2, 9000);
    let stranger = WorkerAddr::new(10, 0, 0, 3, 9000);
    c.handle_register(w1, 1, Ok(1)).unwrap();
    c.handle_register(w2, 2, Ok(2)).unwrap();
    let msg = CoordinationMessage { source: stranger, payload: CoordinationPayload::Heartbeat };
    let d = c.handle(&msg, 3);
    assert_eq!(d, Dispatch::UnknownWorkerHeartbeat);
    assert_eq!(c.worker_count(), 2);
    assert_eq!(c.worker_status(w1).unwrap().last_heartbeat, 1);
    assert_eq!(c.worker_status(w2).unwrap().last_heartbeat, 2);
    assert_eq!(c.worker_status(stranger), None);
}

#[test]
fn heartbeat_dispatch_refreshes_timestamp() {
    let mut c = Controller::new("0.0.0.0", 6033, 10, 5, 0);
    let w1 = WorkerAddr::new(10, 0, 0, 1, 9000);
    c.handle_register(w1, 1, Ok(1)).unwrap();
    let msg = CoordinationMessage { source: w1, payload: CoordinationPayload::Heartbeat };
    let d = c.handle(&msg, 7);
    assert_eq!(d, Dispatch::HeartbeatRecorded);
    assert_eq!(c.worker_status(w1).unwrap().last_heartbeat, 7);
}

#[test]
fn unrecognized_payload_is_ignored_not_fatal() {
    let mut c = Controller::new("0.0.0.0", 6033, 10, 5, 0);
    let w1 = WorkerAddr::new(10, 0, 0, 1, 9000);
    c.handle_register(w1, 1, Ok(1)).unwrap();
    let msg = CoordinationMessage { source: w1, payload: CoordinationPayload::Extension };
    let d = c.handle(&msg, 2);
    assert_eq!(d, Dispatch::Ignored);
    assert_eq!(c.worker_count(), 1);
    assert_eq!(c.worker_status(w1).unwrap().last_heartbeat, 1);
}

#[test]
fn step_requests_connect_for_registration() {
    let mut c = Controller::new("0.0.0.0", 6033, 10, 5, 0);
    let w1 = WorkerAddr::new(10, 0, 0, 1, 9000);
    let cb = WorkerAddr::new(10, 0, 0, 1, 9001);
    let msg = CoordinationMessage { source: w1, payload: CoordinationPayload::Register(cb) };
    let out = c.step(Event::Message(msg), 1);
    assert_eq!(out.connect_request, Some(ConnectRequest { source: w1, callback: cb }));
    assert_eq!(out.admission, None);
    assert_eq!(out.register_failed, None);
    assert_eq!(out.resume_timeout, 5);
    assert!(out.keep_polling);
    assert_eq!(c.worker_count(), 0);
}

#[test]
fn step_failed_connect_mutates_nothing() {
    let mut c = Controller::new("0.0.0.0", 6033, 10, 5, 0);
    let w1 = WorkerAddr::new(10, 0, 0, 1, 9000);
    let out = c.step(
        Event::ConnectFinished { source: w1, conn: Err(ConnectError::TimedOut) },
        1,
    );
    assert_eq!(out.register_failed, Some((w1, ConnectError::TimedOut)));
    assert_eq!(out.admission, None);
    assert_eq!(c.worker_count(), 0);
    assert_eq!(c.worker_status(w1), None);
}

#[test]
fn step_successful_connect_admits_worker() {
    let mut c = Controller::new("0.0.0.0", 6033, 10, 5, 0);
    let w1 = WorkerAddr::new(10, 0, 0, 1, 9000);
    let out = c.step(Event::ConnectFinished { source: w1, conn: Ok(17) }, 1);
    assert_eq!(out.admission, Some(AdmitWorker { addr: w1, sender: 17 }));
    assert_eq!(out.register_failed, None);
    assert_eq!(
        c.worker_status(w1),
        Some(WorkerStatus { healthy: true, last_heartbeat: 1, sender: Some(17) })
    );
}

#[test]
fn listen_configuration_is_kept() {
    let c = Controller::new("10.1.2.3", 6033, 10, 5, 0);
    assert_eq!(c.listen_addr().as_str(), "10.1.2.3");
    assert_eq!(c.listen_port(), 6033);
}

use controlplane::addr::WorkerAddr;
use controlplane::codec::{decode, encode};
use controlplane::controller::{CoordinationMessage, CoordinationPayload};

#[test]
fn heartbeat_wire_form_is_exact() {
    let w1 = WorkerAddr::new(10, 0, 0, 1, 9000);
    let msg = CoordinationMessage { source: w1, payload: CoordinationPayload::Heartbeat };
    // 9000 = 35 * 256 + 40
    assert_eq!(encode(&msg), vec![10, 0, 0, 1, 35, 40, 1]);
}

#[test]
fn register_wire_form_is_exact() {
    let w1 = WorkerAddr::new(10, 0, 0, 1, 9000);
    let cb = WorkerAddr::new(10, 0, 0, 1, 9001);
    let msg = CoordinationMessage { source: w1, payload: CoordinationPayload::Register(cb) };
    assert_eq!(
        encode(&msg),
        vec![10, 0, 0, 1, 35, 40, 0, 10, 0, 0, 1, 35, 41]
    );
}

#[test]
fn round_trip_register() {
    let w1 = WorkerAddr::new(192, 168, 1, 77, 65535);
    let cb = WorkerAddr::new(0, 0, 0, 0, 0);
    let msg = CoordinationMessage { source: w1, payload: CoordinationPayload::Register(cb) };
    assert_eq!(decode(&encode(&msg)), Some(msg));
}

#[test]
fn round_trip_heartbeat() {
    let w1 = WorkerAddr::new(10, 0, 0, 2, 1);
    let msg = CoordinationMessage { source: w1, payload: CoordinationPayload::Heartbeat };
    assert_eq!(decode(&encode(&msg)), Some(msg));
}

#[test]
fn round_trip_extension() {
    let w1 = WorkerAddr::new(255, 255, 255, 255, 256);
    let msg = CoordinationMessage { source: w1, payload: CoordinationPayload::Extension };
    assert_eq!(decode(&encode(&msg)), Some(msg));
}

#[test]
fn decode_rejects_malformed_input() {
    // too short
    assert_eq!(decode(&vec![10, 0, 0, 1, 35]), None);
    // a length no message has
    assert_eq!(decode(&vec![10, 0, 0, 1, 35, 40, 1, 0]), None);
    // unknown tag
    assert_eq!(decode(&vec![10, 0, 0, 1, 35, 40, 9]), None);
    // a registration tag without the callback address
    assert_eq!(decode(&vec![10, 0, 0, 1, 35, 40, 0]), None);
    // a heartbeat tag with trailing bytes
    assert_eq!(
        decode(&vec![10, 0, 0, 1, 35, 40, 1, 10, 0, 0, 1, 35, 41]),
        None
    );
    // empty input
    assert_eq!(decode(&Vec::new()), None);
}

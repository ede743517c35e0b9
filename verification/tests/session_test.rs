use cortex::session_ledger::{SessionFingerprint, SessionLedger, SessionPublishRequest};

fn publish_req(epoch: u64, count: usize) -> SessionPublishRequest {
    SessionPublishRequest {
        epoch,
        message_count: count,
        pinned_boundary: Some(3),
        anchor_boundaries: Some(vec![3, 7, 12]),
        fingerprint: Some(SessionFingerprint { algorithm: "zene-v1".into(), value: "deadbeef".into() }),
    }
}

#[test]
fn publish_then_sticky_roundtrip() {
    let mut ledger = SessionLedger::new();
    assert!(ledger.publish("run-1", &publish_req(2, 20)));
    ledger.record_assignment("run-1", 2, "worker-a");
    assert_eq!(ledger.sticky_worker("run-1", 2).as_deref(), Some("worker-a"));
    assert_eq!(ledger.sticky_worker("run-1", 3), None);
}

#[test]
fn stale_epoch_publish_rejected_newer_accepted() {
    let mut ledger = SessionLedger::new();
    assert!(ledger.publish("run-1", &publish_req(5, 30)));
    assert!(!ledger.publish("run-1", &publish_req(4, 30)));
    assert!(ledger.publish("run-1", &publish_req(6, 31)));
    let e = ledger.get("run-1").unwrap();
    assert_eq!(e.epoch, 6);
    assert_eq!(e.message_count, 31);
}

#[test]
fn epoch_bump_resets_affinity_until_new_turn() {
    let mut ledger = SessionLedger::new();
    ledger.publish("run-1", &publish_req(1, 10));
    ledger.record_assignment("run-1", 1, "worker-a");
    ledger.publish("run-1", &publish_req(2, 8));
    assert_eq!(ledger.sticky_worker("run-1", 2), None);
    ledger.record_assignment("run-1", 2, "worker-b");
    assert_eq!(ledger.sticky_worker("run-1", 2).as_deref(), Some("worker-b"));
}

#[test]
fn close_removes_session() {
    let mut ledger = SessionLedger::new();
    ledger.publish("run-1", &publish_req(1, 4));
    assert!(ledger.close("run-1"));
    assert!(!ledger.close("run-1"));
    assert!(ledger.get("run-1").is_none());
}

#[test]
fn published_baseline_fields_and_same_epoch_keeps_worker() {
    let mut ledger = SessionLedger::new();
    assert!(ledger.publish_at("s", &publish_req(3, 9), 1_000));
    ledger.record_assignment_at("s", 3, "w", 1_001);
    assert!(ledger.publish_at("s", &publish_req(3, 12), 1_002));
    let e = ledger.get("s").unwrap();
    assert_eq!(e.pinned_boundary, 3);
    assert_eq!(e.anchor_boundaries, vec![3, 7, 12]);
    assert_eq!(e.prefix_hash.as_deref(), Some("deadbeef"));
    assert_eq!(e.message_count, 12);
    assert_eq!(e.last_worker_id.as_deref(), Some("w"));
    assert_eq!(e.last_seen_ms, 1_002);
    assert_eq!(ledger.total_sessions(), 1);
}

#[test]
fn assignment_to_unknown_session_creates_it() {
    let mut ledger = SessionLedger::new();
    ledger.record_assignment_at("new", 4, "w", 50);
    assert_eq!(ledger.sticky_worker("new", 4).as_deref(), Some("w"));
    assert_eq!(ledger.get("new").unwrap().epoch, 4);
    assert_eq!(ledger.sticky_worker("missing", 4), None);
}

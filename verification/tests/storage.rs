use intent_runtime::protocol::{payload_digest, DeviceBinding, MessageEnvelope, PROTOCOL_VERSION};
use intent_runtime::storage::{
    validate_database_path, BaselineReferenceKind, EnqueueOutcome, ReceiveOutcome, RetentionClass, StorageError, Store,
    MAX_PAYLOAD_BYTES, OBSERVATION_RETENTION_MS,
};

fn envelope(id: &str, fence: u64, epoch: u64, payload: &[u8]) -> MessageEnvelope {
    MessageEnvelope {
        version: PROTOCOL_VERSION,
        message_id: id.into(),
        sender: "witness-a".into(),
        recipient: "controller".into(),
        device: DeviceBinding { device_id: "router-a".into(), profile_digest: "profile".into(), fencing_generation: fence },
        plan_epoch: epoch,
        created_at_ms: 10,
        expires_at_ms: 10_000,
        payload_digest: payload_digest(payload),
        payload: payload.into(),
    }
}

fn store() -> Store {
    Store::new(2)
}

#[test]
fn restart_deduplicates_exact_message() {
    let mut s = store();
    let e = envelope("m1", 1, 1, b"raw bytes");
    assert_eq!(s.receive(&e, 20).unwrap(), ReceiveOutcome::Inserted);
    assert_eq!(s.receive(&e, 20).unwrap(), ReceiveOutcome::Duplicate);
}

#[test]
fn expired_or_superseded_messages_release_capacity_without_erasing_tombstones() {
    let mut s = store();
    for id in ["a", "b"] {
        s.receive(&envelope(id, 1, 1, id.as_bytes()), 20).unwrap();
        s.enqueue_outbox(&envelope(id, 1, 1, id.as_bytes()), 20).unwrap();
    }
    let mut fresh = envelope("c", 2, 1, b"c");
    fresh.created_at_ms = 20_000;
    fresh.expires_at_ms = 30_000;
    s.receive(&fresh, 20_001).unwrap();
    s.enqueue_outbox(&fresh, 20_001).unwrap();
    assert_eq!(s.pending_inbox(20_001, 10).unwrap().len(), 1);
    assert_eq!(s.ready_outbox(20_001, 10).unwrap().len(), 1);
    assert_eq!(s.receive(&envelope("a", 1, 1, b"a"), 20_001).unwrap(), ReceiveOutcome::Duplicate);
    assert!(!s.mark_inbox_processed("a", 20_001).unwrap());
}

#[test]
fn conflicting_id_is_rejected() {
    let mut s = store();
    assert!(matches!(s.receive(&envelope("m1", 1, 1, b"a"), 20), Ok(ReceiveOutcome::Inserted)));
    assert!(matches!(s.receive(&envelope("m1", 1, 1, b"b"), 20), Err(StorageError::ConflictingMessageId(_))));
}

#[test]
fn fence_and_epoch_cannot_roll_back() {
    let mut s = store();
    s.receive(&envelope("new", 2, 4, b"a"), 20).unwrap();
    assert!(matches!(s.receive(&envelope("old-fence", 1, 99, b"b"), 20), Err(StorageError::StaleFence { .. })));
    assert!(matches!(s.receive(&envelope("old-epoch", 2, 3, b"c"), 20), Err(StorageError::StaleEpoch { .. })));
}

#[test]
fn outbox_is_bounded_and_progress_is_monotonic() {
    let mut s = store();
    s.enqueue_outbox(&envelope("a", 1, 1, b"a"), 20).unwrap();
    s.enqueue_outbox(&envelope("b", 1, 1, b"b"), 20).unwrap();
    assert!(matches!(s.enqueue_outbox(&envelope("c", 1, 1, b"c"), 20), Err(StorageError::QueueFull { .. })));
    s.retry_outbox("a", 100).unwrap();
    s.retry_outbox("a", 50).unwrap();
    let one = s.ready_outbox(100, 5).unwrap().into_iter().find(|x| x.envelope.message_id == "a").unwrap();
    assert_eq!((one.attempts, one.not_before_ms), (2, 100));
}

#[test]
fn expired_and_bad_digest_are_rejected() {
    let mut s = store();
    assert!(matches!(s.receive(&envelope("late", 1, 1, b"x"), 10_001), Err(StorageError::InvalidMessage(_))));
    let mut e = envelope("digest", 1, 1, b"x");
    e.payload_digest = "bad".into();
    assert!(matches!(s.receive(&e, 20), Err(StorageError::InvalidMessage(_))));
}

#[test]
fn validates_required_fields_time_window_and_bounds() {
    let mut s = store();
    let mut future = envelope("future", 1, 1, b"x");
    future.created_at_ms = 21;
    assert!(matches!(s.receive(&future, 20), Err(StorageError::InvalidMessage(_))));
    let mut missing_sender = envelope("sender", 1, 1, b"x");
    missing_sender.sender.clear();
    assert!(matches!(s.receive(&missing_sender, 20), Err(StorageError::InvalidMessage(_))));
    let mut missing_profile = envelope("profile", 1, 1, b"x");
    missing_profile.device.profile_digest.clear();
    assert!(matches!(s.receive(&missing_profile, 20), Err(StorageError::InvalidMessage(_))));
    let payload = vec![0; MAX_PAYLOAD_BYTES + 1];
    assert!(matches!(s.receive(&envelope("large", 1, 1, &payload), 20), Err(StorageError::InvalidMessage(_))));
}

#[test]
fn inbox_is_bounded_and_processed_state_survives_restart() {
    let mut s = store();
    s.receive(&envelope("a", 1, 1, b"a"), 20).unwrap();
    s.receive(&envelope("b", 1, 1, b"b"), 20).unwrap();
    assert!(matches!(s.receive(&envelope("c", 1, 1, b"c"), 20), Err(StorageError::QueueFull { .. })));
    assert_eq!(s.pending_inbox(20, 10).unwrap().len(), 2);
    assert!(s.mark_inbox_processed("a", 21).unwrap());
    assert!(!s.mark_inbox_processed("a", 22).unwrap());
    let pending = s.pending_inbox(30, 10).unwrap();
    assert_eq!(pending.iter().map(|m| m.envelope.message_id.as_str()).collect::<Vec<_>>(), ["b"]);
    s.receive(&envelope("c", 1, 1, b"c"), 30).unwrap();
}

#[test]
fn duplicate_receipt_is_acknowledged_after_expiry_but_never_processed() {
    let mut s = store();
    let mut e = envelope("once", 1, 1, b"x");
    e.expires_at_ms = 30;
    assert_eq!(s.receive(&e, 20).unwrap(), ReceiveOutcome::Inserted);
    assert_eq!(s.receive(&e, 30).unwrap(), ReceiveOutcome::Duplicate);
    assert!(s.pending_inbox(30, 1).unwrap().is_empty());
}

#[test]
fn ready_messages_never_cross_expiry_or_a_new_fence() {
    let mut s = Store::new(3);
    let mut expired = envelope("expired", 1, 1, b"x");
    expired.expires_at_ms = 30;
    s.enqueue_outbox(&expired, 20).unwrap();
    s.enqueue_outbox(&envelope("old", 1, 1, b"a"), 20).unwrap();
    s.enqueue_outbox(&envelope("current", 2, 0, b"b"), 20).unwrap();
    let ready = s.ready_outbox(30, 10).unwrap();
    assert_eq!(ready.iter().map(|m| m.envelope.message_id.as_str()).collect::<Vec<_>>(), ["current"]);
    // Superseded messages have already been retired to immutable tombstones.
    assert!(!s.retry_outbox("old", 31).unwrap());
    assert!(!s.retry_outbox("expired", 30).unwrap());
}

#[test]
fn revision_digest_must_match_source_bytes() {
    let mut s = store();
    assert!(matches!(s.accept_revision("r1", "wrong", b"source", 1), Err(StorageError::RevisionDigestMismatch)));
    s.accept_revision("r1", &payload_digest(b"source"), b"source", 1).unwrap();
}

#[test]
fn rejects_memory_and_uri_databases() {
    assert!(matches!(validate_database_path(":memory:"), Err(StorageError::InvalidDatabasePath(_))));
    assert!(matches!(validate_database_path("file:state.sqlite?mode=memory"), Err(StorageError::InvalidDatabasePath(_))));
    assert!(matches!(validate_database_path("state.sqlite?mode=memory"), Err(StorageError::InvalidDatabasePath(_))));
    assert!(validate_database_path("/var/lib/intent/state.sqlite").is_ok());
}

#[test]
fn transaction_rolls_back_baseline_link_failure() {
    let mut s = store();
    assert!(s.put_snapshot("orphan", RetentionClass::Observation, b"x", 1, Some("missing")).is_err());
    assert!(!s.snapshot_exists("orphan").unwrap());
}

#[test]
fn retention_preserves_baselines_and_backup_restores() {
    let mut s = store();
    let now = OBSERVATION_RETENTION_MS + 10;
    s.put_snapshot("base", RetentionClass::Observation, b"b", 0, None).unwrap();
    s.put_snapshot("audit", RetentionClass::Audit, b"a", now, Some("base")).unwrap();
    s.put_snapshot("deployment-base", RetentionClass::Observation, b"d", 0, None).unwrap();
    s.reference_baseline("deployment-1", BaselineReferenceKind::Deployment, "deployment-base").unwrap();
    s.put_snapshot("old", RetentionClass::Observation, b"o", 0, None).unwrap();
    assert_eq!(s.prune(now).unwrap(), 1);
    assert!(s.snapshot_exists("base").unwrap());
    assert!(s.snapshot_exists("deployment-base").unwrap());
    assert!(s.snapshot_exists("audit").unwrap());
    assert!(!s.snapshot_exists("old").unwrap());
}

#[test]
fn pending_inbox_is_ordered_by_receipt_time_then_id_and_route_filtered() {
    let mut s = Store::new(10);
    s.receive(&envelope("m2", 1, 1, b"2"), 20).unwrap();
    s.receive(&envelope("m1", 1, 1, b"1"), 20).unwrap();
    s.receive(&envelope("m0", 1, 1, b"0"), 25).unwrap();
    let mut other = envelope("x", 1, 1, b"x");
    other.sender = "witness-b".into();
    s.receive(&other, 15).unwrap();
    let all = s.pending_inbox(30, 10).unwrap();
    assert_eq!(all.iter().map(|m| m.envelope.message_id.as_str()).collect::<Vec<_>>(), ["x", "m1", "m2", "m0"]);
    let two = s.pending_inbox(30, 2).unwrap();
    assert_eq!(two.iter().map(|m| m.envelope.message_id.as_str()).collect::<Vec<_>>(), ["x", "m1"]);
    let device = DeviceBinding { device_id: "router-a".into(), profile_digest: "profile".into(), fencing_generation: 1 };
    let routed = s.pending_inbox_route(30, 2, "witness-a", "controller", &device).unwrap();
    assert_eq!(routed.iter().map(|m| m.envelope.message_id.as_str()).collect::<Vec<_>>(), ["m1", "m2"]);
    assert_eq!(routed[0].received_at_ms, 20);
}

#[test]
fn acknowledged_messages_leave_the_ready_list_once() {
    let mut s = store();
    assert_eq!(s.enqueue_outbox(&envelope("a", 1, 1, b"a"), 20).unwrap(), EnqueueOutcome::Enqueued);
    assert_eq!(s.enqueue_outbox(&envelope("a", 1, 1, b"a"), 20).unwrap(), EnqueueOutcome::Duplicate);
    assert!(s.acknowledge_outbox("a", 21).unwrap());
    assert!(!s.acknowledge_outbox("a", 22).unwrap());
    assert!(s.ready_outbox(30, 10).unwrap().is_empty());
    assert!(matches!(s.retry_outbox("b", 31), Ok(false)));
}

#[test]
fn retry_past_expiry_and_stale_fence_are_refused() {
    let mut s = Store::new(5);
    s.enqueue_outbox(&envelope("a", 1, 1, b"a"), 20).unwrap();
    assert!(matches!(s.retry_outbox("a", 10_000), Err(StorageError::InvalidMessage(_))));
    s.receive(&envelope("newer", 1, 2, b"n"), 20).unwrap();
    assert!(matches!(s.retry_outbox("a", 100), Ok(false)));
}

#[test]
fn baseline_references_need_a_stored_snapshot_and_a_fresh_id() {
    let mut s = store();
    assert!(matches!(
        s.reference_baseline("ref", BaselineReferenceKind::Audit, "missing"),
        Err(StorageError::Constraint(_))
    ));
    s.put_snapshot("b", RetentionClass::Audit, b"b", 0, None).unwrap();
    s.reference_baseline("ref", BaselineReferenceKind::Audit, "b").unwrap();
    assert!(matches!(s.reference_baseline("ref", BaselineReferenceKind::Audit, "b"), Err(StorageError::Constraint(_))));
    assert!(matches!(s.reference_baseline("", BaselineReferenceKind::Audit, "b"), Err(StorageError::InvalidMessage(_))));
    assert!(matches!(s.put_snapshot("b", RetentionClass::Audit, b"c", 0, None), Err(StorageError::Constraint(_))));
    assert_eq!(RetentionClass::Audit.as_str(), "audit");
    assert_eq!(RetentionClass::Observation.retention_ms(), 2_592_000_000);
    assert_eq!(BaselineReferenceKind::Deployment.as_str(), "deployment");
}

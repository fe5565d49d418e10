use intent_runtime::assurance::{
    AssurancePlan, Expectation, Outcome, Primitive, ProbeResult, ProbeSource, ProbeSpec, ResourceLimits,
};
use intent_runtime::attestation::{
    bind_assignment, bind_evidence, verify_assignment_signature, verify_evidence_signature, AssignmentScope,
    VerifiedEvidence,
};
use intent_runtime::evidence::{
    revision_subject, Statement, WitnessAssignment, WitnessEvidence, STATEMENT_TYPE, WITNESS_ASSIGNMENT_TYPE,
    WITNESS_EVIDENCE_TYPE,
};
use intent_runtime::health::{HealthError, HealthStatus, HealthTransition};
use intent_runtime::identity::{AgentIdentity, SigningKey, TrustedKey};
use intent_runtime::monitor::{IngestOutcome, MonitorError, MonitorStore};
use intent_runtime::net::IpAddr;
use intent_runtime::protocol::{payload_digest, DeviceBinding, RevisionRef, PROTOCOL_VERSION};
use intent_runtime::state::Completeness;

fn probe() -> ProbeSpec {
    ProbeSpec {
        id: "p".into(),
        primitive: Primitive::NetifdState,
        device: DeviceBinding { device_id: "d".into(), profile_digest: "profile".into(), fencing_generation: 7 },
        source: ProbeSource {
            witness_id: "spiffe://lab.local/agent/witness/d/w".into(),
            location: "lab".into(),
            bind_address: IpAddr::V4(192, 0, 2, 1),
            interface: None,
        },
        endpoint: None,
        expectation: Expectation::NetifdInterface { interface: "lan".into(), up: true, addresses: vec![] },
        limits: ResourceLimits { timeout_ms: 1_000, max_response_bytes: 1_024, max_attempts: 1 },
        interval_ms: 15_000,
        depends_on: vec![],
        claims: vec![],
    }
}

fn probe_digest_of(p: &ProbeSpec) -> String {
    payload_digest(format!("{p:?}").as_bytes())
}

fn revision() -> RevisionRef {
    RevisionRef { id: "rev".into(), source_digest: "digest".into() }
}

fn plan(id: &str, epoch: u64, graph_version: u64) -> AssurancePlan {
    AssurancePlan {
        version: 1,
        id: id.into(),
        epoch,
        revision: revision(),
        graph_version,
        profiles: vec![],
        claims: vec![],
        probes: vec![probe()],
    }
}

fn seeded(now: u64) -> MonitorStore {
    let mut store = MonitorStore::new();
    store.activate(&plan("plan", 1, 2), "fixture", &vec![probe_digest_of(&probe())], now).unwrap();
    store
}

fn trusted(identity: &AgentIdentity, pkcs8: &[u8]) -> TrustedKey {
    let key = SigningKey::from_pkcs8(pkcs8).unwrap();
    TrustedKey { identity: identity.clone(), public_key: key.public_key(), not_before_ms: 0, not_after_ms: 20_000, revoked: false }
}

fn statement<T>(predicate_type: &str, predicate: T) -> Statement<T> {
    Statement {
        statement_type: STATEMENT_TYPE.into(),
        subject: revision_subject(&revision()),
        predicate_type: predicate_type.into(),
        predicate,
    }
}

/// Verified evidence `e{n}` for probe `p` of plan epoch 1, signed over bytes
/// that name `tag`.
fn verified_tagged(n: u64, outcome: Outcome, tag: &str) -> VerifiedEvidence {
    let controller = AgentIdentity::parse("spiffe://lab.local/agent/controller/d/c").unwrap();
    let witness = AgentIdentity::parse("spiffe://lab.local/agent/witness/d/w").unwrap();
    let (controller_key, controller_bytes) = SigningKey::generate().unwrap();
    let (witness_key, witness_bytes) = SigningKey::generate().unwrap();
    let device = DeviceBinding { device_id: "d".into(), profile_digest: "profile".into(), fencing_generation: 7 };
    let probe = probe();
    let assignment = WitnessAssignment {
        version: PROTOCOL_VERSION,
        assignment_id: "a".into(),
        issuer: controller.to_string(),
        recipient: witness.to_string(),
        issued_at_ms: 1_000,
        expires_at_ms: 10_000,
        plan_id: "plan".into(),
        plan_epoch: 1,
        graph_version: 2,
        revision: revision(),
        device: device.clone(),
        probes: vec![probe.clone()],
    };
    let addresses = [IpAddr::V4(192, 0, 2, 1)];
    let rev = revision();
    let scope = AssignmentScope {
        controller: &controller,
        witness: &witness,
        device: &device,
        revision: &rev,
        plan_id: "plan",
        plan_epoch: 1,
        graph_version: 2,
        location: "lab",
        bind_addresses: &addresses,
    };
    let assignment_envelope = controller_key.sign(b"assignment a").unwrap();
    verify_assignment_signature(&assignment_envelope, &[trusted(&controller, &controller_bytes)], &scope, 5_000).unwrap();
    let assignment = bind_assignment(
        statement(WITNESS_ASSIGNMENT_TYPE, assignment),
        &assignment_envelope,
        &scope,
        5_000,
        vec![probe_digest_of(&probe)],
    )
    .unwrap();
    let evidence = WitnessEvidence {
        deployment: None,
        version: PROTOCOL_VERSION,
        evidence_id: format!("e{n}"),
        assignment_id: "a".into(),
        plan_id: "plan".into(),
        plan_epoch: 1,
        graph_version: 2,
        revision: revision(),
        device,
        witness: witness.to_string(),
        probe_digest: probe_digest_of(&probe),
        completeness: Completeness::Complete,
        result: ProbeResult {
            probe_id: "p".into(),
            outcome,
            started_at_ms: 1_500 + n * 100,
            finished_at_ms: 1_550 + n * 100,
            detail: String::new(),
        },
    };
    let envelope = witness_key.sign(format!("evidence {n} {tag}").as_bytes()).unwrap();
    verify_evidence_signature(&envelope, &[trusted(&witness, &witness_bytes)], &assignment, 5_000).unwrap();
    bind_evidence(statement(WITNESS_EVIDENCE_TYPE, evidence), &envelope, &assignment, 5_000).unwrap()
}

fn verified(n: u64, outcome: Outcome) -> VerifiedEvidence {
    verified_tagged(n, outcome, &format!("{outcome:?}"))
}

#[test]
fn reconcile_marks_health_unknown_after_controller_outage() {
    let mut store = seeded(0);
    store.ingest(&verified(1, Outcome::Success), 5_000).unwrap();
    assert_eq!(store.health("plan", 1, "p").unwrap().status, HealthStatus::Healthy);
    // Fresh until the finish, three intervals and a timeout later.
    let fresh_until = 1_650 + 3 * 15_000 + 1_000;
    assert_eq!(store.reconcile_expirations(fresh_until).unwrap(), 0);
    assert_eq!(store.reconcile_expirations(fresh_until + 1).unwrap(), 1);
    assert_eq!(store.health("plan", 1, "p").unwrap().status, HealthStatus::Unknown);
    assert_eq!(store.reconcile_expirations(fresh_until + 2).unwrap(), 0);
}

#[test]
fn exact_evidence_replay_deduplicates_conflict_and_rollback_do_not_advance_health() {
    let mut store = seeded(0);
    let first = verified(1, Outcome::Violation);
    assert_eq!(store.ingest(&first, 5_000).unwrap(), IngestOutcome::Inserted(HealthTransition::Updated));
    let before = store.health("plan", 1, "p").unwrap();
    assert_eq!(store.ingest(&first, 5_000).unwrap(), IngestOutcome::Duplicate);
    assert_eq!(store.health("plan", 1, "p").unwrap(), before);
    assert_eq!(store.ingest(&verified(1, Outcome::Success), 5_000), Err(MonitorError::ConflictingEvidenceId));
    // A refused ingestion records nothing and leaves health as it was.
    assert_eq!(store.ingest(&verified(0, Outcome::Violation), 5_000), Err(MonitorError::Health(HealthError::OutOfOrder)));
    assert!(store.audit_evidence("e0").unwrap().is_none());
    assert_eq!(store.health("plan", 1, "p").unwrap(), before);
}

#[test]
fn activation_is_immutable_idempotent_and_monotonic() {
    let mut store = MonitorStore::new();
    let mut p = plan("plan", 1, 2);
    let digests = vec![probe_digest_of(&probe())];
    store.activate(&p, "fixture", &digests, 0).unwrap();
    store.ingest(&verified(1, Outcome::Violation), 5_000).unwrap();
    assert_eq!(store.health("plan", 1, "p").unwrap().status, HealthStatus::Degraded);
    store.activate(&p, "fixture", &digests, 1).unwrap();
    assert_eq!(store.health("plan", 1, "p").unwrap().status, HealthStatus::Degraded);
    assert_eq!(store.activate(&p, "changed", &digests, 2), Err(MonitorError::Invalid));
    p.graph_version = 4;
    p.epoch = 0;
    assert_eq!(store.activate(&p, "older", &digests, 2), Err(MonitorError::Invalid));
    p.epoch = 3;
    p.graph_version = 2;
    assert_eq!(store.activate(&p, "same-graph", &digests, 2), Err(MonitorError::Invalid));
    p.graph_version = 4;
    store.activate(&p, "next", &digests, 3).unwrap();
    assert!(store.health("plan", 3, "p").is_some());
    // The earlier epoch is disabled: its evidence is now stale.
    assert_eq!(store.ingest(&verified(2, Outcome::Violation), 5_000), Err(MonitorError::StaleScope));
}

#[test]
fn original_signed_envelopes_survive_for_audit() {
    let mut store = seeded(0);
    let v = verified(1, Outcome::Violation);
    let evidence = v.envelope().clone();
    let assignment = v.assignment_envelope().clone();
    store.ingest(&v, 5_000).unwrap();
    let audit = store.audit_evidence("e1").unwrap().unwrap();
    assert_eq!(audit.evidence_id, "e1");
    assert_eq!(audit.evidence_envelope, evidence);
    assert_eq!(audit.assignment_envelope, assignment);
    assert!(store.audit_evidence("missing").unwrap().is_none());
}

#[test]
fn activation_refuses_empty_and_unschedulable_plans() {
    let mut store = MonitorStore::new();
    let digests = vec![probe_digest_of(&probe())];
    let mut p = plan("", 1, 1);
    assert_eq!(store.activate(&p, "d", &digests, 0), Err(MonitorError::Invalid));
    p.id = "plan".into();
    p.probes[0].interval_ms = 0;
    assert_eq!(store.activate(&p, "d", &digests, 0), Err(MonitorError::Invalid));
    p.probes[0].interval_ms = 1;
    p.probes.push(probe());
    assert_eq!(store.activate(&p, "d", &vec![digests[0].clone(), digests[0].clone()], 0), Err(MonitorError::Invalid));
    p.probes.pop();
    assert_eq!(store.activate(&p, "d", &vec![], 0), Err(MonitorError::Invalid));
    assert!(store.health("plan", 1, "p").is_none());
}

#[test]
fn incidents_open_on_the_third_violation_and_reach_the_timeline() {
    let mut store = seeded(0);
    for n in 1..=2 {
        assert_eq!(store.ingest(&verified(n, Outcome::Violation), 5_000).unwrap(), IngestOutcome::Inserted(HealthTransition::Updated));
    }
    assert_eq!(store.ingest(&verified(3, Outcome::Violation), 5_000).unwrap(), IngestOutcome::Inserted(HealthTransition::Opened));
    assert_eq!(store.ingest(&verified(4, Outcome::Success), 5_000).unwrap(), IngestOutcome::Inserted(HealthTransition::Updated));
    assert_eq!(store.ingest(&verified(5, Outcome::Success), 5_000).unwrap(), IngestOutcome::Inserted(HealthTransition::Recovered));
    let timeline = store.timeline(10).unwrap();
    assert_eq!(timeline.len(), 2);
    assert_eq!(timeline[0].transition, HealthTransition::Recovered);
    assert_eq!(timeline[0].evidence_id, "e5");
    assert_eq!(timeline[1].transition, HealthTransition::Opened);
    assert!(timeline[1].state.incident_open);
    assert_eq!(store.timeline(1).unwrap().len(), 1);
}

#[test]
fn retention_keeps_evidence_that_an_incident_names() {
    let mut store = seeded(0);
    for n in 1..=3 {
        store.ingest(&verified(n, Outcome::Violation), 5_000).unwrap();
    }
    let month = 30 * 24 * 60 * 60 * 1_000;
    store.purge_expired(5_000 + month).unwrap();
    assert!(store.audit_evidence("e1").unwrap().is_some());
    store.purge_expired(5_001 + month).unwrap();
    assert!(store.audit_evidence("e1").unwrap().is_none());
    assert!(store.audit_evidence("e3").unwrap().is_some());
    let year: u64 = 365 * 24 * 60 * 60 * 1_000;
    store.purge_expired(5_001 + year).unwrap();
    assert!(store.timeline(10).unwrap().is_empty());
    assert!(store.audit_evidence("e3").unwrap().is_none());
}

#[test]
fn schedules_and_expired_leases_survive_reopen_without_double_claiming() {
    let mut store = seeded(100);
    let claim = store.claim_due(100, 2, 20, "worker-a").unwrap();
    assert_eq!(claim.len(), 1);
    assert_eq!(claim[0].lease_token, "worker-a:1");
    assert_eq!(claim[0].lease_until_ms, 120);
    assert!(store.claim_due(101, 2, 20, "worker-b").unwrap().is_empty());
    let replacement = store.claim_due(120, 1, 20, "worker-b").unwrap();
    assert_eq!(replacement.len(), 1);
    assert_eq!(replacement[0].lease_token, "worker-b:2");
    assert!(!store.finish(&claim[0], 120).unwrap());
    assert!(store.finish(&replacement[0], 121).unwrap());
    let next = store.due(121 + 15_000, 4).unwrap();
    assert_eq!(next.len(), 1);
    assert_eq!(next[0].due_at_ms, 121 + 15_000);
    assert!(store.due(121 + 14_999, 4).unwrap().is_empty());
}

#[test]
fn claims_refuse_bad_arguments_and_order_by_due_time_then_ids() {
    let mut store = MonitorStore::new();
    assert_eq!(store.claim_due(0, 0, 10, "w").err(), Some(MonitorError::Invalid));
    assert_eq!(store.claim_due(0, 1, 0, "w").err(), Some(MonitorError::Invalid));
    assert_eq!(store.claim_due(0, 1, 10, "").err(), Some(MonitorError::Invalid));
    assert_eq!(store.claim_due(0, 1, 10, &"w".repeat(257)).err(), Some(MonitorError::Invalid));
    let mut b = plan("b-plan", 1, 1);
    b.probes[0].id = "z".into();
    store.activate(&b, "b", &vec![probe_digest_of(&b.probes[0])], 10).unwrap();
    let mut a = plan("a-plan", 1, 1);
    let mut second = probe();
    second.id = "a".into();
    a.probes.push(second);
    store.activate(&a, "a", &vec![probe_digest_of(&a.probes[0]), probe_digest_of(&a.probes[1])], 10).unwrap();
    let mut c = plan("c-plan", 1, 1);
    c.probes[0].id = "early".into();
    store.activate(&c, "c", &vec![probe_digest_of(&c.probes[0])], 5).unwrap();
    let due = store.due(10, 10).unwrap();
    let order: Vec<(String, String)> = due.iter().map(|s| (s.plan_id.clone(), s.probe.id.clone())).collect();
    assert_eq!(
        order,
        vec![
            ("c-plan".to_string(), "early".to_string()),
            ("a-plan".to_string(), "a".to_string()),
            ("a-plan".to_string(), "p".to_string()),
            ("b-plan".to_string(), "z".to_string()),
        ]
    );
    assert_eq!(store.due(10, 2).unwrap().len(), 2);
    assert!(store.due(4, 10).unwrap().is_empty());
    let claims = store.claim_due(10, 2, 100, "w").unwrap();
    assert_eq!(claims.len(), 2);
    assert_eq!(claims[0].scheduled.plan_id, "c-plan");
    assert_eq!(store.due(10, 10).unwrap().len(), 2);
    assert!(store.retry(&claims[1], 20, 60_000).unwrap());
    assert!(!store.retry(&claims[1], 20, 60_000).unwrap());
    // The first lease lapsed at 110; the retried probe waits until 60_020.
    assert_eq!(store.due(60_019, 10).unwrap().len(), 3);
    assert_eq!(store.due(60_020, 10).unwrap().len(), 4);
}

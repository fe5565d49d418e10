use base64::engine::general_purpose::STANDARD;
use base64::Engine;
use intent_runtime::assurance::{
    Endpoint, Expectation, IpFamily, Outcome, Primitive, ProbeResult, ProbeSource, ProbeSpec, ResourceLimits,
};
use intent_runtime::attestation::{
    bind_assignment, bind_evidence, verify_assignment_signature, verify_evidence_signature, AssignmentScope, EvidenceError,
    VerifiedAssignment, VerifiedEvidence,
};
use intent_runtime::evidence::{
    revision_subject, Statement, Subject, WitnessAssignment, WitnessEvidence, STATEMENT_TYPE, WITNESS_ASSIGNMENT_TYPE,
    WITNESS_EVIDENCE_TYPE,
};
use intent_runtime::identity::{AgentIdentity, DsseEnvelope, SigningKey, TrustedKey};
use intent_runtime::net::IpAddr;
use intent_runtime::protocol::{payload_digest, DeviceBinding, RevisionRef, PROTOCOL_VERSION};
use intent_runtime::state::Completeness;

const NOW: u64 = 5_000;

struct Fixture {
    controller: AgentIdentity,
    witness: AgentIdentity,
    apply: AgentIdentity,
    controller_key: SigningKey,
    witness_key: SigningKey,
    apply_key: SigningKey,
    controller_trusted: TrustedKey,
    witness_trusted: TrustedKey,
    apply_trusted: TrustedKey,
    device: DeviceBinding,
    revision: RevisionRef,
    probe: ProbeSpec,
    bind_addresses: Vec<IpAddr>,
}

fn trusted(identity: &AgentIdentity, pkcs8: &[u8]) -> TrustedKey {
    let key = SigningKey::from_pkcs8(pkcs8).unwrap();
    TrustedKey { identity: identity.clone(), public_key: key.public_key(), not_before_ms: 0, not_after_ms: 20_000, revoked: false }
}

/// The digest a host computes over the probe's wire encoding.
fn probe_digest_of(probe: &ProbeSpec) -> String {
    payload_digest(format!("{probe:?}").as_bytes())
}

impl Fixture {
    fn new() -> Self {
        let controller = AgentIdentity::parse("spiffe://lab.local/agent/controller/router-a/controller-1").unwrap();
        let witness = AgentIdentity::parse("spiffe://lab.local/agent/witness/router-a/witness-1").unwrap();
        let apply = AgentIdentity::parse("spiffe://lab.local/agent/apply/router-a/apply-1").unwrap();
        let (controller_key, controller_pkcs8) = SigningKey::generate().unwrap();
        let (witness_key, witness_pkcs8) = SigningKey::generate().unwrap();
        let (apply_key, apply_pkcs8) = SigningKey::generate().unwrap();
        let controller_trusted = trusted(&controller, &controller_pkcs8);
        let witness_trusted = trusted(&witness, &witness_pkcs8);
        let apply_trusted = trusted(&apply, &apply_pkcs8);
        let device = DeviceBinding { device_id: "router-a".into(), profile_digest: "profile-v1".into(), fencing_generation: 7 };
        let revision = RevisionRef { id: "rev-42".into(), source_digest: "source-42".into() };
        let probe = ProbeSpec {
            id: "wan-tcp".into(),
            primitive: Primitive::TcpConnect,
            device: device.clone(),
            source: ProbeSource {
                witness_id: witness.to_string(),
                location: "lab-west".into(),
                bind_address: IpAddr::V4(192, 0, 2, 10),
                interface: Some("wan0".into()),
            },
            endpoint: Some(Endpoint { address: IpAddr::V4(198, 51, 100, 1), port: Some(443), family: IpFamily::V4 }),
            expectation: Expectation::TcpConnected,
            limits: ResourceLimits { timeout_ms: 1_000, max_response_bytes: 1_024, max_attempts: 2 },
            interval_ms: 10_000,
            depends_on: vec![],
            claims: vec!["claim-wan".into()],
        };
        Fixture {
            controller,
            witness,
            apply,
            controller_key,
            witness_key,
            apply_key,
            controller_trusted,
            witness_trusted,
            apply_trusted,
            device,
            revision,
            probe,
            bind_addresses: vec![IpAddr::V4(192, 0, 2, 10)],
        }
    }

    fn scope(&self) -> AssignmentScope<'_> {
        AssignmentScope {
            controller: &self.controller,
            witness: &self.witness,
            device: &self.device,
            revision: &self.revision,
            plan_id: "plan-7",
            plan_epoch: 9,
            graph_version: 3,
            location: "lab-west",
            bind_addresses: &self.bind_addresses,
        }
    }

    fn assignment(&self) -> WitnessAssignment {
        WitnessAssignment {
            version: PROTOCOL_VERSION,
            assignment_id: "assignment-7".into(),
            issuer: self.controller.to_string(),
            recipient: self.witness.to_string(),
            issued_at_ms: 1_000,
            expires_at_ms: 10_000,
            plan_id: "plan-7".into(),
            plan_epoch: 9,
            graph_version: 3,
            revision: self.revision.clone(),
            device: self.device.clone(),
            probes: vec![self.probe.clone()],
        }
    }

    fn statement<T>(&self, predicate_type: &str, predicate: T) -> Statement<T> {
        Statement {
            statement_type: STATEMENT_TYPE.into(),
            subject: revision_subject(&self.revision),
            predicate_type: predicate_type.into(),
            predicate,
        }
    }

    fn bind(&self, a: WitnessAssignment, now: u64) -> Result<VerifiedAssignment, EvidenceError> {
        let envelope = self.controller_key.sign(b"assignment statement").unwrap();
        verify_assignment_signature(&envelope, &[self.controller_trusted.clone()], &self.scope(), now)?;
        let digests = a.probes.iter().map(probe_digest_of).collect();
        bind_assignment(self.statement(WITNESS_ASSIGNMENT_TYPE, a), &envelope, &self.scope(), now, digests)
    }

    fn verified_assignment(&self) -> VerifiedAssignment {
        self.bind(self.assignment(), NOW).unwrap()
    }

    fn evidence(&self, assignment: &WitnessAssignment) -> WitnessEvidence {
        WitnessEvidence {
            deployment: None,
            version: PROTOCOL_VERSION,
            evidence_id: "evidence-7".into(),
            assignment_id: assignment.assignment_id.clone(),
            plan_id: assignment.plan_id.clone(),
            plan_epoch: assignment.plan_epoch,
            graph_version: assignment.graph_version,
            revision: assignment.revision.clone(),
            device: assignment.device.clone(),
            witness: assignment.recipient.clone(),
            probe_digest: probe_digest_of(&assignment.probes[0]),
            completeness: Completeness::Complete,
            result: ProbeResult {
                probe_id: "wan-tcp".into(),
                outcome: Outcome::Success,
                started_at_ms: 2_000,
                finished_at_ms: 3_000,
                detail: "connected".into(),
            },
        }
    }

    fn submit(&self, envelope: &DsseEnvelope, keys: &[TrustedKey], statement: Statement<WitnessEvidence>, assignment: &VerifiedAssignment, now: u64)
        -> Result<VerifiedEvidence, EvidenceError> {
        verify_evidence_signature(envelope, keys, assignment, now)?;
        bind_evidence(statement, envelope, assignment, now)
    }
}

#[test]
fn independently_signed_assignment_and_evidence_are_accepted() {
    let f = Fixture::new();
    let assignment = f.verified_assignment();
    let evidence = f.evidence(assignment.assignment());
    let envelope = f.witness_key.sign(b"evidence statement").unwrap();
    let verified = f
        .submit(&envelope, &[f.witness_trusted.clone()], f.statement(WITNESS_EVIDENCE_TYPE, evidence), &assignment, NOW)
        .unwrap();
    assert_eq!(verified.outcome_at(NOW), Outcome::Success);
    assert_eq!(verified.assigned_probe(), &f.probe);
    assert_eq!(verified.interval_ms(), 10_000);
    assert_eq!(verified.timeout_ms(), 1_000);
    assert_eq!(verified.envelope(), &envelope);
}

#[test]
fn assignment_scope_rejects_wrong_role_and_every_binding_field() {
    let f = Fixture::new();
    let mut cases: Vec<(&str, WitnessAssignment)> = Vec::new();
    let mut a = f.assignment();
    a.version = 99;
    cases.push(("predicate", a));
    let mut a = f.assignment();
    a.device.device_id = "other".into();
    cases.push(("device", a));
    let mut a = f.assignment();
    a.revision.id = "other-revision".into();
    cases.push(("revision", a));
    let mut a = f.assignment();
    a.plan_epoch = 10;
    cases.push(("epoch", a));
    let mut a = f.assignment();
    a.recipient = f.apply.to_string();
    cases.push(("recipient", a));
    let mut a = f.assignment();
    a.probes[0].source.location = "other-location".into();
    cases.push(("location", a));
    let mut a = f.assignment();
    a.probes[0].source.bind_address = IpAddr::V4(192, 0, 2, 11);
    cases.push(("source", a));
    for (label, a) in cases {
        assert!(f.bind(a, NOW).is_err(), "{label}");
    }
    let by_witness = f.witness_key.sign(b"assignment statement").unwrap();
    assert!(verify_assignment_signature(&by_witness, &[f.witness_trusted.clone()], &f.scope(), NOW).is_err());
}

#[test]
fn assignment_validity_rejects_expired_and_future_statements() {
    let f = Fixture::new();
    for (issued, expires) in [(NOW + 1, 10_000), (1_000, NOW)] {
        let mut a = f.assignment();
        a.issued_at_ms = issued;
        a.expires_at_ms = expires;
        assert!(matches!(f.bind(a, NOW), Err(EvidenceError::Binding(_))));
    }
}

#[test]
fn evidence_is_bound_to_immutable_assignment_and_rejects_role_fields_and_digest() {
    let f = Fixture::new();
    let assignment = f.verified_assignment();
    let e = f.evidence(assignment.assignment());
    let envelope = f.witness_key.sign(b"evidence statement").unwrap();
    let keys = [f.witness_trusted.clone()];
    let mut changed = envelope.clone();
    changed.payload = STANDARD.encode(b"modified");
    assert!(verify_evidence_signature(&changed, &keys, &assignment, NOW).is_err(), "payload");
    let mut cases: Vec<(&str, Statement<WitnessEvidence>)> = Vec::new();
    let mut s = f.statement(WITNESS_EVIDENCE_TYPE, e.clone());
    s.predicate.plan_id = "other-plan".into();
    cases.push(("predicate", s));
    let mut s = f.statement(WITNESS_EVIDENCE_TYPE, e.clone());
    s.subject = vec![Subject { name: "other-revision".into(), digest: vec![("sha256".into(), "source-42".into())] }];
    cases.push(("subject", s));
    let mut s = f.statement(WITNESS_EVIDENCE_TYPE, e.clone());
    s.predicate.device.device_id = "other".into();
    cases.push(("device", s));
    let mut s = f.statement(WITNESS_EVIDENCE_TYPE, e.clone());
    s.predicate.revision.id = "other".into();
    cases.push(("revision", s));
    let mut s = f.statement(WITNESS_EVIDENCE_TYPE, e.clone());
    s.predicate.plan_epoch = 10;
    cases.push(("epoch", s));
    let mut s = f.statement(WITNESS_EVIDENCE_TYPE, e.clone());
    s.predicate.result.probe_id = "not-assigned".into();
    cases.push(("unknown-probe", s));
    let mut s = f.statement(WITNESS_EVIDENCE_TYPE, e.clone());
    s.predicate.probe_digest = "deadbeef".into();
    cases.push(("probe", s));
    let mut s = f.statement(WITNESS_EVIDENCE_TYPE, e.clone());
    s.predicate.result.started_at_ms = 4_000;
    cases.push(("order", s));
    let mut s = f.statement(WITNESS_EVIDENCE_TYPE, e.clone());
    s.predicate.result.finished_at_ms = 6_000;
    cases.push(("future", s));
    for (label, statement) in cases {
        assert!(f.submit(&envelope, &keys, statement, &assignment, NOW).is_err(), "{label}");
    }
    let apply_signed = f.apply_key.sign(b"evidence statement").unwrap();
    assert!(verify_evidence_signature(&apply_signed, &[f.apply_trusted.clone()], &assignment, NOW).is_err());
}

#[test]
fn evidence_freshness_and_completeness_never_turn_unavailable_into_success() {
    let f = Fixture::new();
    let assignment = f.verified_assignment();
    let envelope = f.witness_key.sign(b"evidence statement").unwrap();
    for completeness in
        [Completeness::Partial { missing: vec!["wan-tcp".into()] }, Completeness::Unavailable { reason: "timeout".into() }]
    {
        let mut e = f.evidence(assignment.assignment());
        e.completeness = completeness;
        let verified = f
            .submit(&envelope, &[f.witness_trusted.clone()], f.statement(WITNESS_EVIDENCE_TYPE, e), &assignment, NOW)
            .unwrap();
        assert_eq!(verified.outcome_at(NOW), Outcome::Unavailable);
    }
    let mut long = f.assignment();
    long.expires_at_ms = 100_000;
    let long_envelope = f.controller_key.sign(b"assignment statement").unwrap();
    let mut long_controller = f.controller_trusted.clone();
    long_controller.not_after_ms = 100_000;
    verify_assignment_signature(&long_envelope, &[long_controller], &f.scope(), 50_000).unwrap();
    let digests = vec![probe_digest_of(&f.probe)];
    let long_assignment =
        bind_assignment(f.statement(WITNESS_ASSIGNMENT_TYPE, long), &long_envelope, &f.scope(), 50_000, digests).unwrap();
    let mut stale = f.evidence(long_assignment.assignment());
    stale.result.finished_at_ms = 4_000;
    let mut long_witness = f.witness_trusted.clone();
    long_witness.not_after_ms = 100_000;
    let verified = f
        .submit(&envelope, &[long_witness], f.statement(WITNESS_EVIDENCE_TYPE, stale), &long_assignment, 50_000)
        .unwrap();
    assert_eq!(verified.outcome_at(50_000), Outcome::Unavailable);
}

#[test]
fn revoked_key_and_duplicate_json_fields_are_rejected() {
    let f = Fixture::new();
    let envelope = f.controller_key.sign(b"assignment statement").unwrap();
    let mut revoked = f.controller_trusted.clone();
    revoked.revoked = true;
    assert!(verify_assignment_signature(&envelope, &[revoked], &f.scope(), NOW).is_err());
}

#[test]
fn duplicate_probe_ids_and_zero_probes_are_refused() {
    let f = Fixture::new();
    let mut a = f.assignment();
    a.probes.push(f.probe.clone());
    assert!(matches!(f.bind(a, NOW), Err(EvidenceError::Binding(_))));
    let mut a = f.assignment();
    a.probes.clear();
    assert!(matches!(f.bind(a, NOW), Err(EvidenceError::Binding(_))));
}

#[test]
fn slow_success_counts_as_timeout_and_old_evidence_is_unavailable() {
    let f = Fixture::new();
    let assignment = f.verified_assignment();
    let envelope = f.witness_key.sign(b"evidence statement").unwrap();
    let mut e = f.evidence(assignment.assignment());
    e.result.started_at_ms = 1_500;
    e.result.finished_at_ms = 2_600;
    let verified = f
        .submit(&envelope, &[f.witness_trusted.clone()], f.statement(WITNESS_EVIDENCE_TYPE, e), &assignment, NOW)
        .unwrap();
    assert_eq!(verified.outcome_at(NOW), Outcome::Timeout);
    // Three intervals plus the timeout after completion the evidence is stale.
    assert_eq!(verified.outcome_at(2_600 + 31_000), Outcome::Timeout);
    assert_eq!(verified.outcome_at(2_600 + 31_001), Outcome::Unavailable);
}

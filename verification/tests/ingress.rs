use intent_runtime::assurance::{
    AssurancePlan, Endpoint, Expectation, IpFamily, Outcome, Primitive, ProbeResult, ProbeSource, ProbeSpec,
    ResourceLimits,
};
use intent_runtime::attestation::{
    bind_assignment, bind_evidence, verify_assignment_signature, verify_evidence_signature, AssignmentScope,
    VerifiedEvidence,
};
use intent_runtime::authorization::{AuthorizationError, Decision};
use intent_runtime::evidence::{
    revision_subject, Statement, WitnessAssignment, WitnessEvidence, STATEMENT_TYPE, WITNESS_ASSIGNMENT_TYPE,
    WITNESS_EVIDENCE_TYPE,
};
use intent_runtime::identity::{AgentIdentity, DsseEnvelope, SigningKey, TrustedKey};
use intent_runtime::ingress::{EvidenceIngress, IngressError, ProcessingHook, ReceiptOutcome};
use intent_runtime::monitor::MonitorStore;
use intent_runtime::net::IpAddr;
use intent_runtime::protocol::{payload_digest, DeviceBinding, MessageEnvelope, RevisionRef, PROTOCOL_VERSION};
use intent_runtime::state::Completeness;
use intent_runtime::storage::{StorageError, Store};

const NOW: u64 = 5_000;

struct Fixture {
    inbox: Store,
    monitor: MonitorStore,
    controller: AgentIdentity,
    witness: AgentIdentity,
    controller_key: SigningKey,
    witness_key: SigningKey,
    keys: Vec<TrustedKey>,
    device: DeviceBinding,
    revision: RevisionRef,
    probe: ProbeSpec,
    addresses: Vec<IpAddr>,
    authorize: bool,
}

fn trusted(identity: &AgentIdentity, pkcs8: &[u8]) -> TrustedKey {
    TrustedKey {
        identity: identity.clone(),
        public_key: SigningKey::from_pkcs8(pkcs8).unwrap().public_key(),
        not_before_ms: 0,
        not_after_ms: 20_000,
        revoked: false,
    }
}

fn probe_digest_of(p: &ProbeSpec) -> String {
    payload_digest(format!("{p:?}").as_bytes())
}

type Review = (Result<Decision, AuthorizationError>, Result<VerifiedEvidence, IngressError>);

impl Fixture {
    fn new(authorize: bool) -> Self {
        let controller = AgentIdentity::parse("spiffe://lab.local/agent/controller/router-a/controller-1").unwrap();
        let witness = AgentIdentity::parse("spiffe://lab.local/agent/witness/router-a/witness-1").unwrap();
        let (controller_key, controller_pkcs8) = SigningKey::generate().unwrap();
        let (witness_key, witness_pkcs8) = SigningKey::generate().unwrap();
        let device = DeviceBinding { device_id: "router-a".into(), profile_digest: "profile-v1".into(), fencing_generation: 7 };
        let revision = RevisionRef { id: "rev-42".into(), source_digest: "source-42".into() };
        let addresses = vec![IpAddr::V4(192, 0, 2, 10)];
        let probe = ProbeSpec {
            id: "wan-tcp".into(),
            primitive: Primitive::TcpConnect,
            device: device.clone(),
            source: ProbeSource {
                witness_id: witness.to_string(),
                location: "lab-west".into(),
                bind_address: addresses[0],
                interface: Some("wan0".into()),
            },
            endpoint: Some(Endpoint { address: IpAddr::V4(198, 51, 100, 1), port: Some(443), family: IpFamily::V4 }),
            expectation: Expectation::TcpConnected,
            limits: ResourceLimits { timeout_ms: 1_000, max_response_bytes: 1_024, max_attempts: 1 },
            interval_ms: 10_000,
            depends_on: vec![],
            claims: vec![],
        };
        let mut monitor = MonitorStore::new();
        let plan = AssurancePlan {
            version: 1,
            id: "plan-7".into(),
            epoch: 9,
            revision: revision.clone(),
            graph_version: 3,
            profiles: vec![],
            claims: vec![],
            probes: vec![probe.clone()],
        };
        monitor.activate(&plan, "fixture", &vec![probe_digest_of(&probe)], NOW).unwrap();
        Fixture {
            inbox: Store::new(8),
            monitor,
            keys: vec![trusted(&controller, &controller_pkcs8), trusted(&witness, &witness_pkcs8)],
            controller,
            witness,
            controller_key,
            witness_key,
            device,
            revision,
            probe,
            addresses,
            authorize,
        }
    }

    fn scope(&self) -> AssignmentScope<'_> {
        AssignmentScope {
            controller: &self.controller,
            witness: &self.witness,
            device: &self.device,
            revision: &self.revision,
            plan_id: "plan-7",
            plan_epoch: 9,
            graph_version: 3,
            location: "lab-west",
            bind_addresses: &self.addresses,
        }
    }

    fn statement<T>(&self, predicate_type: &str, predicate: T) -> Statement<T> {
        Statement {
            statement_type: STATEMENT_TYPE.into(),
            subject: revision_subject(&self.revision),
            predicate_type: predicate_type.into(),
            predicate,
        }
    }

    fn assignment_envelope(&self) -> DsseEnvelope {
        self.controller_key.sign(b"assignment-7 statement").unwrap()
    }

    fn evidence_envelope(&self) -> DsseEnvelope {
        self.witness_key.sign(b"evidence-7 statement").unwrap()
    }

    /// What the controller's host makes of a submission carrying these two
    /// envelopes: its current authorization decision and the verification
    /// of both signed statements.
    fn review(&self, assignment_envelope: &DsseEnvelope, evidence_envelope: &DsseEnvelope) -> Review {
        let decision = Ok(if self.authorize { Decision::Allow } else { Decision::Deny });
        let assignment = WitnessAssignment {
            version: PROTOCOL_VERSION,
            assignment_id: "assignment-7".into(),
            issuer: self.controller.to_string(),
            recipient: self.witness.to_string(),
            issued_at_ms: 1_000,
            expires_at_ms: 10_000,
            plan_id: "plan-7".into(),
            plan_epoch: 9,
            graph_version: 3,
            revision: self.revision.clone(),
            device: self.device.clone(),
            probes: vec![self.probe.clone()],
        };
        let evidence = WitnessEvidence {
            deployment: None,
            version: PROTOCOL_VERSION,
            evidence_id: "evidence-7".into(),
            assignment_id: assignment.assignment_id.clone(),
            plan_id: assignment.plan_id.clone(),
            plan_epoch: assignment.plan_epoch,
            graph_version: assignment.graph_version,
            revision: assignment.revision.clone(),
            device: assignment.device.clone(),
            witness: self.witness.to_string(),
            probe_digest: probe_digest_of(&self.probe),
            completeness: Completeness::Complete,
            result: ProbeResult {
                probe_id: self.probe.id.clone(),
                outcome: Outcome::Success,
                started_at_ms: 2_000,
                finished_at_ms: 3_000,
                detail: "connected".into(),
            },
        };
        let verified = (|| {
            verify_assignment_signature(assignment_envelope, &self.keys, &self.scope(), NOW).map_err(IngressError::Evidence)?;
            let a = bind_assignment(
                self.statement(WITNESS_ASSIGNMENT_TYPE, assignment),
                assignment_envelope,
                &self.scope(),
                NOW,
                vec![probe_digest_of(&self.probe)],
            )
            .map_err(IngressError::Evidence)?;
            verify_evidence_signature(evidence_envelope, &self.keys, &a, NOW).map_err(IngressError::Evidence)?;
            bind_evidence(self.statement(WITNESS_EVIDENCE_TYPE, evidence), evidence_envelope, &a, NOW)
                .map_err(IngressError::Evidence)
        })();
        (decision, verified)
    }

    fn review_genuine(&self) -> Review {
        self.review(&self.assignment_envelope(), &self.evidence_envelope())
    }

    fn envelope(&self, message_id: &str) -> MessageEnvelope {
        let payload = format!("submission {message_id}").into_bytes();
        MessageEnvelope {
            version: PROTOCOL_VERSION,
            message_id: message_id.into(),
            sender: self.witness.to_string(),
            recipient: self.controller.to_string(),
            device: self.device.clone(),
            plan_epoch: 9,
            created_at_ms: 1_500,
            expires_at_ms: 9_000,
            payload_digest: payload_digest(&payload),
            payload,
        }
    }

    fn receive(&mut self, message: &MessageEnvelope, review: Review) -> Result<ReceiptOutcome, IngressError> {
        let (decision, verified) = review;
        let scope = AssignmentScope {
            controller: &self.controller,
            witness: &self.witness,
            device: &self.device,
            revision: &self.revision,
            plan_id: "plan-7",
            plan_epoch: 9,
            graph_version: 3,
            location: "lab-west",
            bind_addresses: &self.addresses,
        };
        EvidenceIngress::new(scope).receive(&mut self.inbox, &self.witness, message, NOW, decision, verified)
    }

    fn process(&mut self, limit: usize, hook: Option<&mut CrashOnce>) -> Result<usize, IngressError> {
        let reviews: Vec<Review> = (0..limit).map(|_| self.review_genuine()).collect();
        let reviews = std::cell::RefCell::new(reviews);
        let review = |_: &MessageEnvelope| reviews.borrow_mut().pop().unwrap();
        let scope = AssignmentScope {
            controller: &self.controller,
            witness: &self.witness,
            device: &self.device,
            revision: &self.revision,
            plan_id: "plan-7",
            plan_epoch: 9,
            graph_version: 3,
            location: "lab-west",
            bind_addresses: &self.addresses,
        };
        let ingress = EvidenceIngress::new(scope);
        match hook {
            Some(h) => ingress.process_pending_with_hook(&mut self.inbox, &mut self.monitor, NOW, limit, h, review),
            None => ingress.process_pending(&mut self.inbox, &mut self.monitor, NOW, limit, review),
        }
    }
}

struct CrashOnce;

impl ProcessingHook for CrashOnce {
    fn after_monitor_ingest(&mut self, _: &str) -> Result<(), IngressError> {
        Err(IngressError::InterruptedAfterIngest)
    }
}

#[test]
fn signed_evidence_is_durable_before_ack_and_replay_after_crash_is_idempotent() {
    let mut fixture = Fixture::new(true);
    let message = fixture.envelope("message-7");
    let review = fixture.review_genuine();
    assert_eq!(fixture.receive(&message, review).unwrap(), ReceiptOutcome::Inserted);
    let mut crash = CrashOnce;
    assert!(matches!(fixture.process(1, Some(&mut crash)), Err(IngressError::InterruptedAfterIngest)));
    assert_eq!(fixture.inbox.pending_inbox(NOW, 2).unwrap().len(), 1);
    assert_eq!(fixture.process(2, None).unwrap(), 1);
    assert!(fixture.inbox.pending_inbox(NOW, 2).unwrap().is_empty());
    let audit = fixture.monitor.audit_evidence("evidence-7").unwrap().unwrap();
    assert_eq!(audit.evidence_envelope, fixture.evidence_envelope());
    assert_eq!(audit.assignment_envelope, fixture.assignment_envelope());
    let review = fixture.review_genuine();
    assert_eq!(fixture.receive(&message, review).unwrap(), ReceiptOutcome::Duplicate);
}

#[test]
fn receipt_rejects_unauthorized_peer_scope_and_forged_evidence_before_durability() {
    let mut unauthorized = Fixture::new(false);
    let m = unauthorized.envelope("denied");
    let review = unauthorized.review_genuine();
    assert!(matches!(unauthorized.receive(&m, review), Err(IngressError::Unauthorized)));
    assert!(unauthorized.inbox.pending_inbox(NOW, 2).unwrap().is_empty());

    let mut fixture = Fixture::new(true);
    let mut wrong_sender = fixture.envelope("wrong-sender");
    wrong_sender.sender = fixture.controller.to_string();
    let review = fixture.review_genuine();
    assert!(matches!(fixture.receive(&wrong_sender, review), Err(IngressError::SenderMismatch)));
    let mut stale = fixture.envelope("stale");
    stale.plan_epoch = 8;
    let review = fixture.review_genuine();
    assert!(matches!(fixture.receive(&stale, review), Err(IngressError::MessageScopeMismatch)));
    let forged = fixture.envelope("forged");
    let mut evidence = fixture.evidence_envelope();
    evidence.signatures[0].sig =
        "AAAAAAAAAAAAAAAAAAAAAAAAAAAAAAAAAAAAAAAAAAAAAAAAAAAAAAAAAAAAAAAAAAAAAAAAAAAAAAAAAAAAAA==".into();
    let review = fixture.review(&fixture.assignment_envelope(), &evidence);
    assert!(matches!(fixture.receive(&forged, review), Err(IngressError::Evidence(_))));
    assert!(fixture.inbox.pending_inbox(NOW, 4).unwrap().is_empty());
}

#[test]
fn route_filtered_replay_cannot_be_starved_by_a_different_inbox_route() {
    let mut fixture = Fixture::new(true);
    let mut other_route = fixture.envelope("aaa-other-route");
    other_route.sender = "spiffe://lab.local/agent/witness/router-b/witness-1".into();
    other_route.recipient = "spiffe://lab.local/agent/controller/router-b/controller-1".into();
    other_route.device = DeviceBinding { device_id: "router-b".into(), profile_digest: "profile-v1".into(), fencing_generation: 1 };
    other_route.plan_epoch = 1;
    fixture.inbox.receive(&other_route, NOW).unwrap();
    let ours = fixture.envelope("zzz-our-route");
    let review = fixture.review_genuine();
    fixture.receive(&ours, review).unwrap();

    assert_eq!(fixture.process(1, None).unwrap(), 1);
    let pending = fixture.inbox.pending_inbox(NOW, 4).unwrap();
    assert_eq!(pending.len(), 1);
    assert_eq!(pending[0].envelope.message_id, "aaa-other-route");
}

#[test]
fn malformed_outer_digest_and_oversized_payload_are_rejected_before_signature_parsing() {
    let mut fixture = Fixture::new(true);
    let mut bad_digest = fixture.envelope("bad-digest");
    bad_digest.payload_digest = "not-the-payload-digest".into();
    let review = fixture.review_genuine();
    assert_eq!(
        fixture.receive(&bad_digest, review),
        Err(IngressError::Storage(StorageError::InvalidMessage("payload digest does not match exact payload bytes")))
    );
    let mut oversized = fixture.envelope("oversized");
    oversized.payload = vec![0; 1_048_577];
    oversized.payload_digest = payload_digest(&oversized.payload);
    let review = fixture.review_genuine();
    assert_eq!(
        fixture.receive(&oversized, review),
        Err(IngressError::Storage(StorageError::InvalidMessage("payload exceeds storage limit")))
    );
    assert!(fixture.inbox.pending_inbox(NOW, 4).unwrap().is_empty());
}

#[test]
fn authorization_failures_are_their_own_error() {
    let mut fixture = Fixture::new(true);
    let m = fixture.envelope("evaluation-failed");
    let (_, verified) = fixture.review_genuine();
    let failed = Err(AuthorizationError::Evaluation("policy engine unavailable".into()));
    assert_eq!(
        fixture.receive(&m, (failed, verified)).err().unwrap(),
        IngressError::Authorization(AuthorizationError::Evaluation("policy engine unavailable".into()))
    );
    assert!(fixture.inbox.pending_inbox(NOW, 4).unwrap().is_empty());
}

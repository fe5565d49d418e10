use intent_runtime::assurance::{
    Endpoint, Expectation, IpFamily, Outcome, Primitive, ProbeResult, ProbeSource, ProbeSpec, ResourceLimits,
};
use intent_runtime::attestation::{bind_assignment, bind_evidence, AssignmentScope, VerifiedAssignment, VerifiedEvidence};
use intent_runtime::confirmation::{
    proofs_json, verify_confirmation, ConfirmationError, ConfirmationScope, RequiredVerification,
};
use intent_runtime::evidence::{
    revision_subject, DeploymentBinding, Statement, WitnessAssignment, WitnessEvidence, STATEMENT_TYPE,
    WITNESS_ASSIGNMENT_TYPE, WITNESS_EVIDENCE_TYPE,
};
use intent_runtime::identity::{AgentIdentity, DsseEnvelope, SigningKey};
use intent_runtime::net::IpAddr;
use intent_runtime::protocol::{payload_digest, DeviceBinding, RevisionRef, PROTOCOL_VERSION};
use intent_runtime::state::Completeness;
use intent_runtime::execution::{ExecutionError, WitnessExecutor};
use intent_runtime::local::LocalObservationContext;

struct World {
    controller: AgentIdentity,
    witness: AgentIdentity,
    ck: SigningKey,
    wk: SigningKey,
    device: DeviceBinding,
    revision: RevisionRef,
    binding: DeploymentBinding,
    probe: ProbeSpec,
    digest: String,
    addresses: Vec<IpAddr>,
}

impl World {
    fn new() -> World {
        let controller = AgentIdentity::parse("spiffe://lab.local/agent/controller/r1/c").unwrap();
        let witness = AgentIdentity::parse("spiffe://lab.local/agent/witness/r1/w").unwrap();
        let (ck, _) = SigningKey::generate().unwrap();
        let (wk, _) = SigningKey::generate().unwrap();
        let device = DeviceBinding { device_id: "r1".into(), profile_digest: "profile".into(), fencing_generation: 4 };
        let probe = ProbeSpec {
            id: "lan".into(),
            primitive: Primitive::TcpConnect,
            device: device.clone(),
            source: ProbeSource {
                witness_id: witness.to_string(),
                location: "lan".into(),
                bind_address: IpAddr::V4(192, 0, 2, 10),
                interface: Some("lan0".into()),
            },
            endpoint: Some(Endpoint { address: IpAddr::V4(192, 0, 2, 1), port: Some(443), family: IpFamily::V4 }),
            expectation: Expectation::TcpConnected,
            limits: ResourceLimits { timeout_ms: 1_000, max_response_bytes: 1_024, max_attempts: 1 },
            interval_ms: 10_000,
            depends_on: vec![],
            claims: vec!["management".into()],
        };
        let digest = payload_digest(format!("{probe:?}").as_bytes());
        World {
            controller,
            witness,
            ck,
            wk,
            device,
            revision: RevisionRef { id: "rev".into(), source_digest: "src".into() },
            binding: DeploymentBinding { deployment_id: "a".into(), checkpoint_digest: "a".repeat(64) },
            probe,
            digest,
            addresses: vec![IpAddr::V4(192, 0, 2, 10)],
        }
    }

    fn assignment(&self) -> (VerifiedAssignment, DsseEnvelope) {
        let envelope = self.ck.sign(b"assignment").unwrap();
        let scope = AssignmentScope {
            controller: &self.controller,
            witness: &self.witness,
            device: &self.device,
            revision: &self.revision,
            plan_id: "plan",
            plan_epoch: 9,
            graph_version: 3,
            location: "lan",
            bind_addresses: &self.addresses,
        };
        let a = WitnessAssignment {
            version: PROTOCOL_VERSION,
            assignment_id: "assignment".into(),
            issuer: self.controller.to_string(),
            recipient: self.witness.to_string(),
            issued_at_ms: 1_000,
            expires_at_ms: 900_000,
            plan_id: "plan".into(),
            plan_epoch: 9,
            graph_version: 3,
            revision: self.revision.clone(),
            device: self.device.clone(),
            probes: vec![self.probe.clone()],
        };
        let statement = Statement {
            statement_type: STATEMENT_TYPE.into(),
            subject: revision_subject(&self.revision),
            predicate_type: WITNESS_ASSIGNMENT_TYPE.into(),
            predicate: a,
        };
        (bind_assignment(statement, &envelope, &scope, 5_000, vec![self.digest.clone()]).unwrap(), envelope)
    }

    fn evidence(&self, va: &VerifiedAssignment, id: &str, start: u64, finish: u64, outcome: Outcome) -> VerifiedEvidence {
        let e = WitnessEvidence {
            deployment: Some(self.binding.clone()),
            version: PROTOCOL_VERSION,
            evidence_id: id.into(),
            assignment_id: "assignment".into(),
            plan_id: "plan".into(),
            plan_epoch: 9,
            graph_version: 3,
            revision: self.revision.clone(),
            device: self.device.clone(),
            witness: self.witness.to_string(),
            probe_digest: self.digest.clone(),
            completeness: Completeness::Complete,
            result: ProbeResult { probe_id: "lan".into(), outcome, started_at_ms: start, finished_at_ms: finish, detail: "".into() },
        };
        let env = self.wk.sign(id.as_bytes()).unwrap();
        let statement = Statement {
            statement_type: STATEMENT_TYPE.into(),
            subject: revision_subject(&self.revision),
            predicate_type: WITNESS_EVIDENCE_TYPE.into(),
            predicate: e,
        };
        bind_evidence(statement, &env, va, 5_000).unwrap()
    }

    fn required(&self, lan: bool) -> Vec<RequiredVerification> {
        vec![RequiredVerification {
            probe_id: "lan".into(),
            probe_digest: self.digest.clone(),
            source: self.probe.source.clone(),
            lan_management_path: lan,
        }]
    }

    fn scope<'a>(&'a self, required: &'a [RequiredVerification]) -> ConfirmationScope<'a> {
        ConfirmationScope {
            deployment: &self.binding,
            device: &self.device,
            revision: &self.revision,
            plan_id: "plan",
            plan_epoch: 9,
            graph_version: 3,
            provisional_started_at_ms: 1_500,
            deadline_ms: 181_500,
            required,
        }
    }
}

#[test]
fn two_independent_rounds_confirm_with_the_earliest_freshness_end() {
    let w = World::new();
    let (va, _) = w.assignment();
    let first = w.evidence(&va, "first", 2_000, 2_100, Outcome::Success);
    let second = w.evidence(&va, "second", 4_000, 4_100, Outcome::Success);
    let required = w.required(true);
    let c = verify_confirmation(&[vec![&first], vec![&second]], &w.scope(&required), 5_000).unwrap();
    // finished + 3 * interval + timeout + 1, of the first round
    assert_eq!(c.expires_at_ms(), 2_100 + 30_000 + 1_000 + 1);
    assert_eq!(c.confirmed_at_ms(), 5_000);
    assert_eq!(c.deadline_ms(), 181_500);
    assert_eq!(c.plan_id(), "plan");
    assert_eq!(c.deployment(), &w.binding);
    let json = String::from_utf8(proofs_json(&c.proofs().to_vec())).unwrap();
    assert!(json.starts_with("[[{\"assignment\":{\"payloadType\":\"application/vnd.in-toto+json\""));
    assert!(json.contains("\"signatures\":[{\"keyid\":"));
    assert_eq!(c.proof_digest(), payload_digest(json.as_bytes()));
}

#[test]
fn each_error_has_its_cause() {
    let w = World::new();
    let (va, _) = w.assignment();
    let first = w.evidence(&va, "first", 2_000, 2_100, Outcome::Success);
    let second = w.evidence(&va, "second", 4_000, 4_100, Outcome::Success);
    let required = w.required(true);
    let scope = w.scope(&required);
    let rounds = [vec![&first], vec![&second]];
    assert!(matches!(verify_confirmation(&rounds, &scope, 181_500), Err(ConfirmationError::Expired)));
    assert!(matches!(verify_confirmation(&rounds, &scope, 1_499), Err(ConfirmationError::Expired)));
    let plain = w.required(false);
    assert!(matches!(verify_confirmation(&rounds, &w.scope(&plain), 5_000), Err(ConfirmationError::IncompleteScope)));
    let mut twice = w.required(true);
    twice.extend(w.required(true));
    assert!(matches!(verify_confirmation(&rounds, &w.scope(&twice), 5_000), Err(ConfirmationError::IncompleteScope)));
    assert!(matches!(verify_confirmation(&rounds[..1], &scope, 5_000), Err(ConfirmationError::MissingRounds)));
    assert!(matches!(
        verify_confirmation(&[vec![&first], vec![]], &scope, 5_000),
        Err(ConfirmationError::MissingRounds)
    ));
    // The same evidence twice is reuse.
    assert!(matches!(
        verify_confirmation(&[vec![&first], vec![&first]], &scope, 5_000),
        Err(ConfirmationError::InvalidEvidence)
    ));
    // A second round that did not start after the first finished.
    let early = w.evidence(&va, "early", 2_050, 2_200, Outcome::Success);
    assert!(matches!(
        verify_confirmation(&[vec![&first], vec![&early]], &scope, 5_000),
        Err(ConfirmationError::InvalidEvidence)
    ));
    let failed = w.evidence(&va, "failed", 4_000, 4_100, Outcome::Violation);
    assert!(matches!(
        verify_confirmation(&[vec![&first], vec![&failed]], &scope, 5_000),
        Err(ConfirmationError::InvalidEvidence)
    ));
    // Evidence before the provisional apply started.
    let before = w.evidence(&va, "before", 1_200, 1_300, Outcome::Success);
    assert!(matches!(
        verify_confirmation(&[vec![&before], vec![&second]], &scope, 5_000),
        Err(ConfirmationError::InvalidEvidence)
    ));
}

#[test]
fn executor_evidence_carries_the_assignment_and_marks_incomplete_outcomes() {
    let w = World::new();
    let (va, _) = w.assignment();
    let (key, _) = SigningKey::generate().unwrap();
    let local = LocalObservationContext { device: w.device.clone(), source: w.probe.source.clone(), rpcd_session: "s".into() };
    let witness = AgentIdentity::parse(&w.witness.to_string()).unwrap();
    let ex = WitnessExecutor::new(witness, key, local).unwrap();
    let result = |outcome: Outcome, finish: u64| ProbeResult {
        probe_id: "lan".into(),
        outcome,
        started_at_ms: 1_500,
        finished_at_ms: finish,
        detail: "".into(),
    };
    let e = ex.evidence(&va, "ev-1", &w.digest, result(Outcome::Unavailable, 2_000)).unwrap();
    assert_eq!(e.completeness, Completeness::Unavailable { reason: "observation could not produce complete evidence".into() });
    assert_eq!(e.assignment_id, "assignment");
    assert_eq!(e.witness, w.witness.to_string());
    assert!(e.deployment.is_none());
    let ok = ex.evidence(&va, "ev-2", &w.digest, result(Outcome::Success, 2_000)).unwrap();
    assert_eq!(ok.completeness, Completeness::Complete);
    assert!(matches!(ex.evidence(&va, "ev-3", &w.digest, result(Outcome::Success, 900_000)), Err(ExecutionError::Expired)));
}

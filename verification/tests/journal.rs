use intent_runtime::assurance::{
    Endpoint, Expectation, IpFamily, Outcome, Primitive, ProbeResult, ProbeSource, ProbeSpec, ResourceLimits,
};
use intent_runtime::attestation::{bind_assignment, bind_evidence, verify_assignment_signature, verify_evidence_signature, AssignmentScope};
use intent_runtime::confirmation::{verify_confirmation, ConfirmationScope, RequiredVerification, VerifiedDeploymentConfirmation};
use intent_runtime::evidence::{
    revision_subject, DeploymentBinding, Statement, WitnessAssignment, WitnessEvidence, STATEMENT_TYPE,
    WITNESS_ASSIGNMENT_TYPE, WITNESS_EVIDENCE_TYPE,
};
use intent_runtime::identity::{AgentIdentity, SigningKey, TrustedKey};
use intent_runtime::journal::{
    ApplyBackend, ApplyWindow, BackendDisposition, CheckpointReceipt, DeploymentJournal, DeploymentPhase, DeploymentRequest,
    DeploymentStatus, JournalError, OwnedBaselineField,
};
use intent_runtime::net::IpAddr;
use intent_runtime::protocol::{payload_digest, DeviceBinding, RevisionRef, PROTOCOL_VERSION};
use intent_runtime::state::Completeness;

#[derive(Default)]
struct Fake {
    calls: Vec<&'static str>,
    fail: Option<&'static str>,
    disposition: Option<BackendDisposition>,
    checkpoint_seen: Option<String>,
    apply_window: Option<ApplyWindow>,
    confirm_expires_at_ms: Option<u64>,
}

impl Fake {
    fn call(&mut self, op: &'static str) -> Result<(), String> {
        self.calls.push(op);
        if self.fail == Some(op) {
            Err("lost response".to_string())
        } else {
            Ok(())
        }
    }
    fn count(&self, op: &str) -> usize {
        self.calls.iter().filter(|c| **c == op).count()
    }
}

impl ApplyBackend for Fake {
    fn reconcile(&mut self, _: &str) -> Result<BackendDisposition, String> {
        self.call("reconcile")?;
        Ok(self.disposition.clone().unwrap_or(BackendDisposition::AppliedOrUnknown))
    }
    fn preflight(&mut self, _: &str) -> Result<(), String> {
        self.call("preflight")
    }
    fn stage(&mut self, _: &str) -> Result<(), String> {
        self.call("stage")
    }
    fn durable_checkpoint(&mut self, _: &str) -> Result<CheckpointReceipt, String> {
        self.call("checkpoint")?;
        Ok(CheckpointReceipt { restore_artifact_digest: "a".repeat(64) })
    }
    fn discard_staging(&mut self, _: &str) -> Result<(), String> {
        self.call("discard")
    }
    fn provisional_apply(&mut self, _: &str, _: &str, window: ApplyWindow) -> Result<(), String> {
        self.apply_window = Some(window);
        self.call("apply")
    }
    fn confirm(&mut self, _: &str, digest: &str, expires_at_ms: u64) -> Result<(), String> {
        self.checkpoint_seen = Some(digest.into());
        self.confirm_expires_at_ms = Some(expires_at_ms);
        self.call("confirm")
    }
    fn rollback(&mut self, _: &str, digest: &str) -> Result<(), String> {
        self.checkpoint_seen = Some(digest.into());
        self.call("rollback")
    }
}

fn req(id: &str) -> DeploymentRequest {
    DeploymentRequest {
        deployment_id: id.into(),
        device: DeviceBinding { device_id: "r1".into(), profile_digest: "profile".into(), fencing_generation: 4 },
        plan_epoch: 9,
        revision: RevisionRef { id: "rev".into(), source_digest: "src".into() },
        plan_id: "plan-id".into(),
        plan_digest: "plan".into(),
        graph_version: 3,
        owned_baseline_digest: "base".into(),
        owned_baseline: vec![OwnedBaselineField {
            package: "network".into(),
            section: "lan".into(),
            field: "proto".into(),
            value_digest: Some("d".into()),
            secret_reference: None,
        }],
        confirmation_window_ms: None,
    }
}

fn ready(j: &mut DeploymentJournal, b: &mut Fake) {
    j.prepare(&req("a"), 0).unwrap();
    j.preflight("a", b).unwrap();
    j.stage("a", b).unwrap();
    j.durable_checkpoint("a", b).unwrap();
}

fn applied(j: &mut DeploymentJournal, b: &mut Fake) {
    ready(j, b);
    j.provisional_apply("a", 1_500, b).unwrap();
}

/// Real controller and independent witness signatures produce the sealed token.
fn token(s: &DeploymentStatus) -> VerifiedDeploymentConfirmation {
    let controller = AgentIdentity::parse("spiffe://lab.local/agent/controller/r1/c").unwrap();
    let witness = AgentIdentity::parse("spiffe://lab.local/agent/witness/r1/w").unwrap();
    let (ck, _) = SigningKey::generate().unwrap();
    let (wk, _) = SigningKey::generate().unwrap();
    let trusted = |identity: AgentIdentity, key: &SigningKey| TrustedKey {
        identity,
        public_key: key.public_key(),
        not_before_ms: 0,
        not_after_ms: 1_000_000,
        revoked: false,
    };
    let ct = trusted(controller.clone(), &ck);
    let wt = trusted(witness.clone(), &wk);
    let addresses = [IpAddr::V4(192, 0, 2, 10)];
    let probe = ProbeSpec {
        id: "lan".into(),
        primitive: Primitive::TcpConnect,
        device: s.request.device.clone(),
        source: ProbeSource {
            witness_id: witness.to_string(),
            location: "lan".into(),
            bind_address: addresses[0],
            interface: Some("lan0".into()),
        },
        endpoint: Some(Endpoint { address: IpAddr::V4(192, 0, 2, 1), port: Some(443), family: IpFamily::V4 }),
        expectation: Expectation::TcpConnected,
        limits: ResourceLimits { timeout_ms: 1_000, max_response_bytes: 1_024, max_attempts: 1 },
        interval_ms: 10_000,
        depends_on: vec![],
        claims: vec!["management".into()],
    };
    let digest = payload_digest(format!("{probe:?}").as_bytes());
    let binding = DeploymentBinding {
        deployment_id: s.request.deployment_id.clone(),
        checkpoint_digest: s.checkpoint_digest.clone(),
    };
    let assignment = WitnessAssignment {
        version: PROTOCOL_VERSION,
        assignment_id: "assignment".into(),
        issuer: controller.to_string(),
        recipient: witness.to_string(),
        issued_at_ms: 1_000,
        expires_at_ms: 900_000,
        plan_id: s.request.plan_id.clone(),
        plan_epoch: s.request.plan_epoch,
        graph_version: s.request.graph_version,
        revision: s.request.revision.clone(),
        device: s.request.device.clone(),
        probes: vec![probe.clone()],
    };
    let envelope = ck.sign(b"assignment statement").unwrap();
    let scope = AssignmentScope {
        controller: &controller,
        witness: &witness,
        device: &s.request.device,
        revision: &s.request.revision,
        plan_id: &s.request.plan_id,
        plan_epoch: s.request.plan_epoch,
        graph_version: s.request.graph_version,
        location: "lan",
        bind_addresses: &addresses,
    };
    verify_assignment_signature(&envelope, &[ct], &scope, 5_000).unwrap();
    let statement = Statement {
        statement_type: STATEMENT_TYPE.into(),
        subject: revision_subject(&s.request.revision),
        predicate_type: WITNESS_ASSIGNMENT_TYPE.into(),
        predicate: assignment.clone(),
    };
    let va = bind_assignment(statement, &envelope, &scope, 5_000, vec![digest.clone()]).unwrap();
    let seal = |id: &str, start, finish| {
        let e = WitnessEvidence {
            deployment: Some(binding.clone()),
            version: PROTOCOL_VERSION,
            evidence_id: id.into(),
            assignment_id: assignment.assignment_id.clone(),
            plan_id: assignment.plan_id.clone(),
            plan_epoch: assignment.plan_epoch,
            graph_version: assignment.graph_version,
            revision: assignment.revision.clone(),
            device: assignment.device.clone(),
            witness: witness.to_string(),
            probe_digest: digest.clone(),
            completeness: Completeness::Complete,
            result: ProbeResult {
                probe_id: probe.id.clone(),
                outcome: Outcome::Success,
                started_at_ms: start,
                finished_at_ms: finish,
                detail: "connected".into(),
            },
        };
        let env = wk.sign(format!("evidence {id}").as_bytes()).unwrap();
        verify_evidence_signature(&env, std::slice::from_ref(&wt), &va, 5_000).unwrap();
        let statement = Statement {
            statement_type: STATEMENT_TYPE.into(),
            subject: revision_subject(&s.request.revision),
            predicate_type: WITNESS_EVIDENCE_TYPE.into(),
            predicate: e,
        };
        bind_evidence(statement, &env, &va, 5_000).unwrap()
    };
    let first = seal("first", 2_000, 2_100);
    let second = seal("second", 4_000, 4_100);
    let required = [RequiredVerification {
        probe_id: probe.id.clone(),
        probe_digest: digest.clone(),
        source: probe.source.clone(),
        lan_management_path: true,
    }];
    verify_confirmation(
        &[vec![&first], vec![&second]],
        &ConfirmationScope {
            deployment: &binding,
            device: &s.request.device,
            revision: &s.request.revision,
            plan_id: &s.request.plan_id,
            plan_epoch: s.request.plan_epoch,
            graph_version: s.request.graph_version,
            provisional_started_at_ms: s.provisional_started_at_ms.unwrap(),
            deadline_ms: s.expires_at_ms,
            required: &required,
        },
        5_000,
    )
    .unwrap()
}

/// A confirmation intent left behind by a confirm call whose reply was lost.
fn persist_confirm_intent(j: &mut DeploymentJournal) {
    let t = token(&j.status("a").unwrap());
    let mut lost = Fake { fail: Some("confirm"), ..Default::default() };
    assert!(j.record_independent_confirmation("a", &t, 5_000, &mut lost).is_err());
    assert_eq!(j.status("a").unwrap().phase, DeploymentPhase::ConfirmIntent);
}

#[test]
fn successful_delivery_retries_do_not_repeat_effects() {
    let mut j = DeploymentJournal::new();
    let mut b = Fake::default();
    applied(&mut j, &mut b);
    j.prepare(&req("a"), 10).unwrap();
    j.preflight("a", &mut b).unwrap();
    j.stage("a", &mut b).unwrap();
    j.durable_checkpoint("a", &mut b).unwrap();
    j.provisional_apply("a", 2_000, &mut b).unwrap();
    assert_eq!(b.calls, vec!["preflight", "stage", "checkpoint", "apply"]);
}

#[test]
fn one_unfinished_deployment_per_device_and_conflicting_id_rejected() {
    let mut j = DeploymentJournal::new();
    j.prepare(&req("a"), 0).unwrap();
    let mut conflict = req("a");
    conflict.plan_digest = "other".into();
    assert!(matches!(j.prepare(&conflict, 0), Err(JournalError::ConflictingDeployment)));
    let mut next = req("b");
    next.device.fencing_generation += 1;
    assert!(matches!(j.prepare(&next, 0), Err(JournalError::ActiveDeployment)));
    j.rollback("a", &mut Fake::default()).unwrap();
    j.prepare(&next, 0).unwrap();
    assert!(matches!(j.preflight("a", &mut Fake::default()), Err(JournalError::StaleBinding)));
}

#[test]
fn binding_monotonicity_requires_fence_for_profile_and_no_epoch_regression() {
    let mut j = DeploymentJournal::new();
    j.prepare(&req("a"), 0).unwrap();
    j.rollback("a", &mut Fake::default()).unwrap();
    for change in 0..3 {
        let mut r = req("b");
        match change {
            0 => r.device.fencing_generation -= 1,
            1 => r.device.profile_digest = "other".into(),
            _ => {
                r.device.fencing_generation += 1;
                r.plan_epoch -= 1;
            },
        }
        assert!(matches!(j.prepare(&r, 0), Err(JournalError::StaleBinding)));
    }
}

#[test]
fn failures_before_apply_are_safe_to_retry() {
    for effect in ["preflight", "stage", "checkpoint"] {
        let mut j = DeploymentJournal::new();
        let mut b = Fake { fail: Some(effect), ..Default::default() };
        j.prepare(&req("a"), 0).unwrap();
        let run = |j: &mut DeploymentJournal, b: &mut Fake| -> Result<(), JournalError> {
            j.preflight("a", b)?;
            j.stage("a", b)?;
            j.durable_checkpoint("a", b)
        };
        assert!(run(&mut j, &mut b).is_err());
        b.fail = None;
        run(&mut j, &mut b).unwrap();
        j.provisional_apply("a", 1_500, &mut b).unwrap();
        assert_eq!(b.count("apply"), 1);
    }
}

#[test]
fn uncertain_apply_is_never_retried_and_uses_durable_restore_receipt() {
    let mut j = DeploymentJournal::new();
    let mut b = Fake::default();
    ready(&mut j, &mut b);
    b.fail = Some("apply");
    assert!(j.provisional_apply("a", 1_500, &mut b).is_err());
    assert!(j.provisional_apply("a", 1_500, &mut b).is_err());
    b.fail = None;
    j.recover(2_000, &mut b).unwrap();
    j.recover(2_000, &mut b).unwrap();
    assert_eq!(b.count("apply"), 1);
    assert_eq!(b.checkpoint_seen, Some("a".repeat(64)));
    assert_eq!(j.status("a").unwrap().phase, DeploymentPhase::RolledBack);
}

#[test]
fn crash_at_every_preconfirm_boundary_is_recoverable_without_an_apply_retry() {
    for step in 0..6 {
        let mut j = DeploymentJournal::new();
        let mut b = Fake::default();
        j.prepare(&req("a"), 0).unwrap();
        if step >= 1 {
            j.preflight("a", &mut b).unwrap();
        }
        if step >= 2 {
            j.stage("a", &mut b).unwrap();
        }
        if step >= 3 {
            j.durable_checkpoint("a", &mut b).unwrap();
        }
        if step == 4 {
            // The apply intent is durable but its effect's outcome is lost.
            b.fail = Some("apply");
            assert!(j.provisional_apply("a", 1_500, &mut b).is_err());
            b.fail = None;
        }
        if step == 5 {
            j.provisional_apply("a", 1_500, &mut b).unwrap();
        }
        let applies = b.count("apply");
        j.recover(2_000, &mut b).unwrap();
        assert_eq!(applies, b.count("apply"));
        assert_eq!(j.status("a").unwrap().phase, DeploymentPhase::RolledBack);
        if step < 4 {
            assert!(b.calls.contains(&"discard"));
        }
    }
}

#[test]
fn apply_intent_deadline_and_checkpoint_are_visible_before_physical_apply() {
    let mut j = DeploymentJournal::new();
    let mut b = Fake::default();
    ready(&mut j, &mut b);
    // The apply intent is recorded before the effect: when the effect's
    // reply is lost, the recorded window and checkpoint are what recovery sees.
    b.fail = Some("apply");
    assert!(j.provisional_apply("a", 1_500, &mut b).is_err());
    let s = j.status("a").unwrap();
    assert_eq!(s.phase, DeploymentPhase::Uncertain);
    assert_eq!(s.provisional_started_at_ms, Some(1_500));
    assert_eq!(s.expires_at_ms, 181_500);
    assert_eq!(s.checkpoint_digest, "a".repeat(64));
    assert!(s.intent_marker);
}

#[test]
fn backend_receives_the_exact_durable_apply_window() {
    let mut j = DeploymentJournal::new();
    let mut b = Fake::default();
    ready(&mut j, &mut b);
    j.provisional_apply("a", 1_500, &mut b).unwrap();
    assert_eq!(b.apply_window, Some(ApplyWindow { started_at_ms: 1_500, deadline_ms: 181_500 }));
    let s = j.status("a").unwrap();
    assert_eq!(Some(1_500), s.provisional_started_at_ms);
    assert_eq!(181_500, s.expires_at_ms);
}

#[test]
fn preapply_discard_failure_stays_unfinished_and_retries_after_reboot() {
    let mut j = DeploymentJournal::new();
    let mut b = Fake { fail: Some("discard"), ..Default::default() };
    j.prepare(&req("a"), 0).unwrap();
    j.preflight("a", &mut b).unwrap();
    j.stage("a", &mut b).unwrap();
    assert!(j.rollback("a", &mut b).is_err());
    assert_eq!(j.status("a").unwrap().phase, DeploymentPhase::RollingBack);
    b.fail = None;
    j.recover(2_000, &mut b).unwrap();
    assert_eq!(j.status("a").unwrap().phase, DeploymentPhase::RolledBack);
    assert_eq!(b.count("discard"), 2);
    assert!(!b.calls.contains(&"rollback"));
}

#[test]
fn confirm_requires_live_token_and_backend_success() {
    let mut j = DeploymentJournal::new();
    let mut b = Fake::default();
    applied(&mut j, &mut b);
    let t = token(&j.status("a").unwrap());
    assert!(j.record_independent_confirmation("a", &t, t.expires_at_ms(), &mut b).is_err());
    assert!(!b.calls.contains(&"confirm"));
    assert_eq!(j.record_independent_confirmation("a", &t, 5_000, &mut b).unwrap(), DeploymentPhase::Confirmed);
    assert_eq!(b.confirm_expires_at_ms, Some(t.expires_at_ms()));
    j.record_independent_confirmation("a", &t, 5_000, &mut b).unwrap();
    assert_eq!(b.count("confirm"), 1);
    assert_eq!(j.status("a").unwrap().verification_rounds, 2);
    assert!(j.rollback("a", &mut b).is_err());
}

#[test]
fn mismatched_apply_window_or_checkpoint_cannot_confirm() {
    let mut j = DeploymentJournal::new();
    let mut b = Fake::default();
    applied(&mut j, &mut b);
    for change in 0..3 {
        let mut s = j.status("a").unwrap();
        match change {
            0 => s.expires_at_ms += 1,
            1 => s.provisional_started_at_ms = Some(1_499),
            _ => s.checkpoint_digest = "b".repeat(64),
        }
        let t = token(&s);
        assert!(j.record_independent_confirmation("a", &t, 5_000, &mut b).is_err());
    }
    assert!(!b.calls.contains(&"confirm"));
}

#[test]
fn confirm_error_keeps_intent_and_unknown_outcome_blocks_both_retry_and_rollback() {
    let mut j = DeploymentJournal::new();
    let mut b = Fake::default();
    applied(&mut j, &mut b);
    let t = token(&j.status("a").unwrap());
    b.fail = Some("confirm");
    assert!(j.record_independent_confirmation("a", &t, 5_000, &mut b).is_err());
    assert_eq!(j.status("a").unwrap().phase, DeploymentPhase::ConfirmIntent);
    b.fail = None;
    assert!(matches!(j.record_independent_confirmation("a", &t, 5_000, &mut b), Err(JournalError::UncertainConfirmation)));
    assert!(matches!(j.rollback("a", &mut b), Err(JournalError::UncertainConfirmation)));
    assert_eq!(b.count("confirm"), 1);
    assert!(!b.calls.contains(&"rollback"));
}

#[test]
fn expired_retry_only_reconciles_a_durable_confirmation_intent() {
    let mut j = DeploymentJournal::new();
    let mut b = Fake::default();
    applied(&mut j, &mut b);
    let t = token(&j.status("a").unwrap());
    b.fail = Some("confirm");
    assert!(j.record_independent_confirmation("a", &t, 5_000, &mut b).is_err());
    assert_eq!(j.status("a").unwrap().phase, DeploymentPhase::ConfirmIntent);
    b.fail = None;
    b.disposition = Some(BackendDisposition::Confirmed { checkpoint_digest: "a".repeat(64) });
    assert_eq!(
        j.record_independent_confirmation("a", &t, t.expires_at_ms(), &mut b).unwrap(),
        DeploymentPhase::Confirmed
    );
    assert_eq!(b.count("confirm"), 1);
}

#[test]
fn crash_before_confirm_rolls_back_only_after_authoritative_provisional_observation() {
    let mut j = DeploymentJournal::new();
    let mut b = Fake::default();
    applied(&mut j, &mut b);
    persist_confirm_intent(&mut j);
    b.disposition = Some(BackendDisposition::Provisional);
    j.recover(999_999, &mut b).unwrap();
    assert_eq!(j.status("a").unwrap().phase, DeploymentPhase::RolledBack);
    assert!(!b.calls.contains(&"confirm"));
}

#[test]
fn crash_after_backend_confirm_reconciles_success_even_after_token_expiry() {
    let mut j = DeploymentJournal::new();
    let mut b = Fake::default();
    applied(&mut j, &mut b);
    persist_confirm_intent(&mut j);
    b.disposition = Some(BackendDisposition::Confirmed { checkpoint_digest: "a".repeat(64) });
    j.recover(999_999, &mut b).unwrap();
    j.recover(999_999, &mut b).unwrap();
    assert_eq!(j.status("a").unwrap().phase, DeploymentPhase::Confirmed);
    assert_eq!(j.status("a").unwrap().verification_rounds, 2);
    assert!(!b.calls.contains(&"confirm"));
    assert!(!b.calls.contains(&"rollback"));
}

#[test]
fn backend_confirmed_without_sealed_proof_or_with_wrong_checkpoint_is_rejected() {
    for case in [0, 2] {
        let mut j = DeploymentJournal::new();
        let mut b = Fake::default();
        applied(&mut j, &mut b);
        if case > 0 {
            persist_confirm_intent(&mut j);
        }
        b.disposition = Some(BackendDisposition::Confirmed {
            checkpoint_digest: if case == 2 { "b".repeat(64) } else { "a".repeat(64) },
        });
        assert!(j.recover(6_000, &mut b).is_err());
        assert_ne!(j.status("a").unwrap().phase, DeploymentPhase::Confirmed);
        assert!(!b.calls.contains(&"rollback"));
    }
}

#[test]
fn reconcile_failure_and_rollback_failure_are_restart_retryable() {
    for effect in ["reconcile", "rollback"] {
        let mut j = DeploymentJournal::new();
        let mut b = Fake::default();
        applied(&mut j, &mut b);
        b.fail = Some(effect);
        assert!(j.recover(6_000, &mut b).is_err());
        b.fail = None;
        j.recover(6_000, &mut b).unwrap();
        assert_eq!(j.status("a").unwrap().phase, DeploymentPhase::RolledBack);
        assert_eq!(b.count("apply"), 1);
    }
}

#[test]
fn already_rolled_back_does_not_repeat_backend_rollback() {
    let mut j = DeploymentJournal::new();
    let mut b = Fake::default();
    applied(&mut j, &mut b);
    b.disposition = Some(BackendDisposition::AlreadyRolledBack);
    j.recover(6_000, &mut b).unwrap();
    assert!(!b.calls.contains(&"rollback"));
    j.rollback("a", &mut b).unwrap();
}

#[test]
fn phase_names_round_trip_and_unknown_names_are_corrupt() {
    for phase in [
        DeploymentPhase::Prepared,
        DeploymentPhase::Preflighted,
        DeploymentPhase::Staged,
        DeploymentPhase::Checkpointed,
        DeploymentPhase::ProvisionalIntent,
        DeploymentPhase::AwaitingVerification,
        DeploymentPhase::ConfirmIntent,
        DeploymentPhase::Confirmed,
        DeploymentPhase::RollingBack,
        DeploymentPhase::RolledBack,
        DeploymentPhase::Uncertain,
    ] {
        assert_eq!(DeploymentPhase::parse(phase.as_str()), Ok(phase));
    }
    assert_eq!(DeploymentPhase::AwaitingVerification.as_str(), "awaiting_verification");
    assert!(DeploymentPhase::parse("applied").is_err());
    assert!(DeploymentPhase::Checkpointed.completed_step(DeploymentPhase::Staged));
    assert!(!DeploymentPhase::Staged.completed_step(DeploymentPhase::Checkpointed));
}

#[test]
fn invalid_requests_are_refused_before_any_record() {
    let mut j = DeploymentJournal::new();
    let mut r = req("a");
    r.confirmation_window_ms = Some(0);
    assert!(matches!(j.prepare(&r, 0), Err(JournalError::Invalid(_))));
    let mut r = req("a");
    r.owned_baseline.clear();
    assert!(matches!(j.prepare(&r, 0), Err(JournalError::Invalid(_))));
    assert!(matches!(j.status("a"), Err(JournalError::UnknownDeployment)));
    let mut r = req("a");
    r.confirmation_window_ms = Some(60_000);
    j.prepare(&r, 0).unwrap();
    let mut b = Fake::default();
    j.preflight("a", &mut b).unwrap();
    j.stage("a", &mut b).unwrap();
    j.durable_checkpoint("a", &mut b).unwrap();
    j.provisional_apply("a", 1_000, &mut b).unwrap();
    assert_eq!(b.apply_window, Some(ApplyWindow { started_at_ms: 1_000, deadline_ms: 61_000 }));
}

#[test]
fn recovery_walks_unfinished_deployments_by_id_and_returns_the_recovered() {
    let mut j = DeploymentJournal::new();
    let mut b = Fake::default();
    let mut zeta = req("zeta");
    zeta.device.device_id = "r2".into();
    j.prepare(&zeta, 0).unwrap();
    j.prepare(&req("alpha"), 0).unwrap();
    j.preflight("alpha", &mut b).unwrap();
    b.calls.clear();
    assert_eq!(j.recover(2_000, &mut b).unwrap(), vec!["alpha".to_string(), "zeta".to_string()]);
    assert_eq!(b.calls, ["discard", "discard"]);
    assert_eq!(j.status("alpha").unwrap().phase, DeploymentPhase::RolledBack);
    assert_eq!(j.status("zeta").unwrap().phase, DeploymentPhase::RolledBack);
    assert!(j.recover(2_000, &mut b).unwrap().is_empty());
    assert_eq!(b.calls.len(), 2);
}

#[test]
fn a_failed_recovery_does_not_stop_the_others_and_its_error_is_returned() {
    let mut j = DeploymentJournal::new();
    let mut b = Fake::default();
    let mut other = req("b-other");
    other.device.device_id = "r2".into();
    j.prepare(&req("a-first"), 0).unwrap();
    j.prepare(&other, 0).unwrap();
    b.fail = Some("discard");
    assert!(matches!(j.recover(2_000, &mut b), Err(JournalError::Backend(_))));
    assert_eq!(b.count("discard"), 2);
    assert_eq!(j.status("a-first").unwrap().phase, DeploymentPhase::RollingBack);
    assert_eq!(j.status("b-other").unwrap().phase, DeploymentPhase::RollingBack);
    b.fail = None;
    assert_eq!(j.recover(2_000, &mut b).unwrap(), vec!["a-first".to_string(), "b-other".to_string()]);
}

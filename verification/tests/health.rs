use intent_runtime::assurance::{Outcome, ProbeResult};
use intent_runtime::evidence::WitnessEvidence;
use intent_runtime::health::{aggregate_health, HealthError, HealthState, HealthStatus, HealthTransition};
use intent_runtime::protocol::{DeviceBinding, RevisionRef};
use intent_runtime::state::Completeness;

fn observation(n: u64, outcome: Outcome) -> WitnessEvidence {
    WitnessEvidence {
        deployment: None,
        version: 1,
        evidence_id: format!("e{n}"),
        assignment_id: "a".into(),
        plan_id: "p".into(),
        plan_epoch: 1,
        graph_version: 1,
        revision: RevisionRef { id: "r".into(), source_digest: "d".into() },
        device: DeviceBinding { device_id: "d".into(), profile_digest: "p".into(), fencing_generation: 1 },
        witness: "w".into(),
        probe_digest: "d".into(),
        completeness: Completeness::Complete,
        result: ProbeResult {
            probe_id: "probe".into(),
            outcome,
            started_at_ms: n * 30_000,
            finished_at_ms: n * 30_000 + 100,
            detail: "".into(),
        },
    }
}

fn state() -> HealthState {
    HealthState::new("p".into(), 1, 1, "probe".into())
}

fn feed(s: &mut HealthState, n: u64, outcome: Outcome) -> HealthTransition {
    let e = observation(n, outcome);
    s.update(&e, outcome, e.result.finished_at_ms, 30_000, 1_000).unwrap()
}

#[test]
fn incident_threshold_recovery_and_duplicate_across_restart() {
    let mut s = state();
    for n in 1..=2 {
        assert_eq!(feed(&mut s, n, Outcome::Violation), HealthTransition::Updated);
    }
    assert_eq!(feed(&mut s, 3, Outcome::Violation), HealthTransition::Opened);
    // The persisted record is the whole state; a reloaded copy behaves alike.
    s = s.clone();
    assert_eq!(feed(&mut s, 3, Outcome::Violation), HealthTransition::Duplicate);
    assert_eq!(feed(&mut s, 4, Outcome::Success), HealthTransition::Updated);
    assert_eq!(s.status, HealthStatus::Recovering);
    assert_eq!(feed(&mut s, 5, Outcome::Success), HealthTransition::Recovered);
}

#[test]
fn ambiguity_and_staleness_never_close_incident_or_accumulate_success() {
    let mut s = state();
    for n in 1..=3 {
        feed(&mut s, n, Outcome::Violation);
    }
    feed(&mut s, 4, Outcome::Success);
    feed(&mut s, 5, Outcome::Timeout);
    assert!(s.incident_open);
    assert_eq!(s.status, HealthStatus::Unknown);
    feed(&mut s, 6, Outcome::Success);
    assert_eq!(s.status, HealthStatus::Recovering);
    s.expire(400_000);
    assert!(s.incident_open);
    assert_eq!(s.consecutive_successes, 0);
    feed(&mut s, 15, Outcome::Success);
    assert_eq!(s.status, HealthStatus::Recovering);
}

#[test]
fn rejects_out_of_order_and_foreign_plan_and_unknown_dependencies() {
    let mut s = state();
    feed(&mut s, 3, Outcome::Success);
    let e = observation(2, Outcome::Success);
    assert_eq!(s.update(&e, Outcome::Success, 100_000, 30_000, 1_000), Err(HealthError::OutOfOrder));
    let mut e = observation(4, Outcome::Success);
    e.plan_epoch = 2;
    assert_eq!(s.update(&e, Outcome::Success, 150_000, 30_000, 1_000), Err(HealthError::Scope));
    assert_eq!(aggregate_health(&[HealthStatus::Healthy, HealthStatus::Unknown]), HealthStatus::Unknown);
    assert_eq!(aggregate_health(&[]), HealthStatus::Unknown);
}

#[test]
fn zero_interval_is_refused_and_leaves_state_unchanged() {
    let mut s = state();
    let before = s.clone();
    let e = observation(1, Outcome::Success);
    assert_eq!(s.update(&e, Outcome::Success, e.result.finished_at_ms, 0, 1_000), Err(HealthError::Interval));
    assert_eq!(s, before);
}

#[test]
fn incident_opens_only_on_third_violation_and_all_healthy_aggregates_healthy() {
    let mut s = state();
    assert_eq!(feed(&mut s, 1, Outcome::Violation), HealthTransition::Updated);
    assert!(!s.incident_open);
    assert_eq!(s.status, HealthStatus::Degraded);
    assert_eq!(feed(&mut s, 2, Outcome::Success), HealthTransition::Updated);
    assert_eq!(feed(&mut s, 3, Outcome::Violation), HealthTransition::Updated);
    assert!(!s.incident_open);
    assert_eq!(aggregate_health(&[HealthStatus::Healthy, HealthStatus::Healthy]), HealthStatus::Healthy);
    assert_eq!(aggregate_health(&[HealthStatus::Healthy, HealthStatus::Incident]), HealthStatus::Incident);
}

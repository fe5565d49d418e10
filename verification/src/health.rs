//! Health state transitions over authenticated, assignment-bound evidence.
//! An incident opens on the third consecutive violation and closes only
//! after two consecutive successes; missing or ambiguous evidence never
//! closes it.
use crate::assurance::Outcome;
use crate::attestation::{outcome_at_spec, VerifiedEvidence};
use crate::evidence::WitnessEvidence;
use crate::state::{sat_add, sat_mul, saturating_mul_u64};
use vstd::prelude::*;

verus! {

#[derive(Debug, Clone, Copy, PartialEq, Eq, Structural)]
pub enum HealthStatus {
    Unknown,
    Healthy,
    Degraded,
    Incident,
    Recovering,
}

#[derive(Debug, Clone, PartialEq, Eq)]
pub struct HealthState {
    pub plan_id: String,
    pub plan_epoch: u64,
    pub graph_version: u64,
    pub probe_id: String,
    pub status: HealthStatus,
    pub incident_open: bool,
    pub consecutive_violations: u8,
    pub consecutive_successes: u8,
    pub last_evidence_id: Option<String>,
    pub last_finished_at_ms: Option<u64>,
    pub freshness_until_ms: Option<u64>,
    pub symptom: Option<Outcome>,
}

pub struct HealthStateView {
    pub plan_id: Seq<char>,
    pub plan_epoch: u64,
    pub graph_version: u64,
    pub probe_id: Seq<char>,
    pub status: HealthStatus,
    pub incident_open: bool,
    pub consecutive_violations: u8,
    pub consecutive_successes: u8,
    pub last_evidence_id: Option<Seq<char>>,
    pub last_finished_at_ms: Option<u64>,
    pub freshness_until_ms: Option<u64>,
    pub symptom: Option<Outcome>,
}

impl View for HealthState {
    type V = HealthStateView;
    open spec fn view(&self) -> HealthStateView {
        HealthStateView {
            plan_id: self.plan_id@,
            plan_epoch: self.plan_epoch,
            graph_version: self.graph_version,
            probe_id: self.probe_id@,
            status: self.status,
            incident_open: self.incident_open,
            consecutive_violations: self.consecutive_violations,
            consecutive_successes: self.consecutive_successes,
            last_evidence_id: match self.last_evidence_id {
                Some(s) => Some(s@),
                None => None,
            },
            last_finished_at_ms: self.last_finished_at_ms,
            freshness_until_ms: self.freshness_until_ms,
            symptom: self.symptom,
        }
    }
}

#[derive(Debug, Clone, Copy, PartialEq, Eq, Structural)]
pub enum HealthTransition {
    Updated,
    Opened,
    Recovered,
    Duplicate,
}

#[derive(Debug, Clone, Copy, PartialEq, Eq, Structural)]
pub enum HealthError {
    /// Evidence belongs to another plan epoch, graph or probe.
    Scope,
    /// Evidence completion does not follow the last observed invocation.
    OutOfOrder,
    /// Invalid freshness interval.
    Interval,
}

/// The message text of each HealthError.
pub open spec fn health_error_text(e: HealthError) -> Seq<char> {
    match e {
        HealthError::Scope => "evidence belongs to another plan epoch, graph or probe"@,
        HealthError::OutOfOrder => "evidence completion does not follow the last observed invocation"@,
        HealthError::Interval => "invalid freshness interval"@,
    }
}

impl HealthError {
    pub fn message(&self) -> (r: &'static str)
        ensures
            r@ == health_error_text(*self),
    {
        match self {
            HealthError::Scope => "evidence belongs to another plan epoch, graph or probe",
            HealthError::OutOfOrder => "evidence completion does not follow the last observed invocation",
            HealthError::Interval => "invalid freshness interval",
        }
    }
}

/// Outcomes that are a definite symptom of the claim not holding.
pub open spec fn is_symptom(o: Outcome) -> bool {
    matches!(o, Outcome::Violation | Outcome::Refused | Outcome::DnsNxDomain | Outcome::DnsServerFailure | Outcome::TlsFailure)
}

/// Unknown status with both streaks reset; the incident flag is kept.
pub open spec fn unknown_spec(s: HealthStateView, symptom: Option<Outcome>) -> HealthStateView {
    HealthStateView { status: HealthStatus::Unknown, consecutive_successes: 0, consecutive_violations: 0, symptom, ..s }
}

pub open spec fn stale_at(s: HealthStateView, now_ms: u64) -> bool {
    match s.freshness_until_ms {
        None => true,
        Some(t) => now_ms > t,
    }
}

pub open spec fn expire_spec(s: HealthStateView, now_ms: u64) -> HealthStateView {
    if stale_at(s, now_ms) { unknown_spec(s, None) } else { s }
}

/// The state after one effective outcome, and the transition it reports.
pub open spec fn record_spec(s: HealthStateView, o: Outcome) -> (HealthStateView, HealthTransition) {
    if o == Outcome::Success {
        let successes: u8 = if s.consecutive_successes >= 1 { 2 } else { 1 };
        let s1 = HealthStateView { symptom: None, consecutive_violations: 0, consecutive_successes: successes, ..s };
        if s.incident_open && successes < 2 {
            (HealthStateView { status: HealthStatus::Recovering, ..s1 }, HealthTransition::Updated)
        } else if s.incident_open {
            (HealthStateView { incident_open: false, status: HealthStatus::Healthy, ..s1 }, HealthTransition::Recovered)
        } else {
            (HealthStateView { status: HealthStatus::Healthy, ..s1 }, HealthTransition::Updated)
        }
    } else if is_symptom(o) {
        let violations: u8 = if s.consecutive_violations >= 2 { 3 } else { (s.consecutive_violations + 1) as u8 };
        let s1 = HealthStateView { symptom: Some(o), consecutive_successes: 0, consecutive_violations: violations, ..s };
        if violations == 3 && !s.incident_open {
            (HealthStateView { incident_open: true, status: HealthStatus::Incident, ..s1 }, HealthTransition::Opened)
        } else {
            (
                HealthStateView {
                    status: if s.incident_open { HealthStatus::Incident } else { HealthStatus::Degraded },
                    ..s1
                },
                HealthTransition::Updated,
            )
        }
    } else {
        (unknown_spec(s, Some(o)), HealthTransition::Updated)
    }
}

/// Law: how one effective outcome moves a probe's health. An open incident
/// closes only on the second consecutive success, reporting the recovery;
/// an incident opens only on the third consecutive symptom, reporting the
/// opening. A symptom is never healthy: it is an incident while one is
/// open, else a degradation. A success clears the symptom and is healthy,
/// or recovering while an incident is still open. Any other outcome is
/// unknown and keeps the incident flag. The probe's identity and evidence
/// markers never change here.
pub proof fn lemma_health_transition_rules(s: HealthStateView, o: Outcome)
    ensures
        s.incident_open && !record_spec(s, o).0.incident_open ==> o == Outcome::Success && s.consecutive_successes >= 1
            && record_spec(s, o).1 == HealthTransition::Recovered && record_spec(s, o).0.status == HealthStatus::Healthy,
        !s.incident_open && record_spec(s, o).0.incident_open ==> is_symptom(o) && s.consecutive_violations >= 2
            && record_spec(s, o).1 == HealthTransition::Opened && record_spec(s, o).0.status == HealthStatus::Incident,
        is_symptom(o) && s.consecutive_violations >= 2 ==> record_spec(s, o).0.incident_open,
        is_symptom(o) && s.consecutive_violations < 2 && !s.incident_open ==> !record_spec(s, o).0.incident_open
            && record_spec(s, o).0.status == HealthStatus::Degraded,
        is_symptom(o) ==> record_spec(s, o).0.symptom == Some(o) && record_spec(s, o).0.consecutive_successes == 0
            && (record_spec(s, o).0.status == HealthStatus::Incident <==> record_spec(s, o).0.incident_open)
            && (record_spec(s, o).0.status == HealthStatus::Degraded <==> !record_spec(s, o).0.incident_open),
        o == Outcome::Success ==> record_spec(s, o).0.symptom is None && record_spec(s, o).0.consecutive_violations == 0
            && record_spec(s, o).0.consecutive_successes >= 1 && (record_spec(s, o).0.status == HealthStatus::Healthy
            || (record_spec(s, o).0.status == HealthStatus::Recovering && record_spec(s, o).0.incident_open)),
        o == Outcome::Success && s.incident_open && s.consecutive_successes == 0 ==> record_spec(s, o).0.status
            == HealthStatus::Recovering && record_spec(s, o).0.incident_open,
        o != Outcome::Success && !is_symptom(o) ==> record_spec(s, o).0.status == HealthStatus::Unknown
            && record_spec(s, o).0.incident_open == s.incident_open && record_spec(s, o).0.symptom == Some(o),
        record_spec(s, o).0.plan_id == s.plan_id && record_spec(s, o).0.plan_epoch == s.plan_epoch
            && record_spec(s, o).0.graph_version == s.graph_version && record_spec(s, o).0.probe_id == s.probe_id
            && record_spec(s, o).0.last_evidence_id == s.last_evidence_id,
{
}

pub open spec fn in_scope(s: HealthStateView, e: WitnessEvidence) -> bool {
    &&& s.plan_id == e.plan_id@
    &&& s.plan_epoch == e.plan_epoch
    &&& s.graph_version == e.graph_version
    &&& s.probe_id == e.result.probe_id@
}

pub open spec fn out_of_order(s: HealthStateView, e: WitnessEvidence) -> bool {
    match s.last_finished_at_ms {
        Some(t) => e.result.started_at_ms <= t || e.result.finished_at_ms <= t,
        None => false,
    }
}

/// Evidence stays fresh for three intervals plus one timeout after it finished.
pub open spec fn fresh_until(finished_ms: u64, interval_ms: u64, timeout_ms: u64) -> u64 {
    sat_add(sat_add(finished_ms, sat_mul(interval_ms, 3)), timeout_ms)
}

/// The transition for one piece of evidence whose outcome, judged at
/// `now_ms`, is `outcome`.
pub open spec fn update_spec(
    s: HealthStateView,
    e: WitnessEvidence,
    outcome: Outcome,
    now_ms: u64,
    interval_ms: u64,
    timeout_ms: u64,
) -> Result<(HealthStateView, HealthTransition), HealthError> {
    if !in_scope(s, e) {
        Err(HealthError::Scope)
    } else if interval_ms == 0 || timeout_ms == 0 {
        Err(HealthError::Interval)
    } else if s.last_evidence_id == Some(e.evidence_id@) {
        Ok((s, HealthTransition::Duplicate))
    } else if out_of_order(s, e) {
        Err(HealthError::OutOfOrder)
    } else {
        let until = fresh_until(e.result.finished_at_ms, interval_ms, timeout_ms);
        let s1 = HealthStateView {
            last_evidence_id: Some(e.evidence_id@),
            last_finished_at_ms: Some(e.result.finished_at_ms),
            freshness_until_ms: Some(until),
            ..expire_spec(s, e.result.started_at_ms)
        };
        Ok(record_spec(s1, if now_ms > until { Outcome::Unavailable } else { outcome }))
    }
}

/// Law: evidence is applied at most once and in order. Evidence for
/// another plan, epoch, graph or probe is refused; evidence accepted once is
/// a duplicate, changing nothing, when it comes again; accepted evidence
/// started and finished after the last evidence applied and becomes the
/// last; evidence already stale when judged leaves the probe unknown.
pub proof fn lemma_health_update_rules(
    s: HealthStateView,
    e: WitnessEvidence,
    outcome: Outcome,
    now_ms: u64,
    interval_ms: u64,
    timeout_ms: u64,
    again_outcome: Outcome,
    again_ms: u64,
)
    ensures
        !in_scope(s, e) ==> update_spec(s, e, outcome, now_ms, interval_ms, timeout_ms) == Err::<
            (HealthStateView, HealthTransition),
            HealthError,
        >(HealthError::Scope),
        update_spec(s, e, outcome, now_ms, interval_ms, timeout_ms) matches Ok((t, tr)) ==> update_spec(
            t,
            e,
            again_outcome,
            again_ms,
            interval_ms,
            timeout_ms,
        ) == Ok::<(HealthStateView, HealthTransition), HealthError>((t, HealthTransition::Duplicate)),
        update_spec(s, e, outcome, now_ms, interval_ms, timeout_ms) matches Ok((t, tr)) ==> (tr != HealthTransition::Duplicate ==> (
            t.last_evidence_id == Some(e.evidence_id@) && t.last_finished_at_ms == Some(e.result.finished_at_ms) && (
            s.last_finished_at_ms matches Some(x) ==> e.result.started_at_ms > x && e.result.finished_at_ms > x))),
        update_spec(s, e, outcome, now_ms, interval_ms, timeout_ms) matches Ok((t, tr)) ==> (tr != HealthTransition::Duplicate
            && now_ms > fresh_until(e.result.finished_at_ms, interval_ms, timeout_ms) ==> t.status == HealthStatus::Unknown),
{
    if update_spec(s, e, outcome, now_ms, interval_ms, timeout_ms) is Ok {
        if s.last_evidence_id != Some(e.evidence_id@) {
            let until = fresh_until(e.result.finished_at_ms, interval_ms, timeout_ms);
            let s1 = HealthStateView {
                last_evidence_id: Some(e.evidence_id@),
                last_finished_at_ms: Some(e.result.finished_at_ms),
                freshness_until_ms: Some(until),
                ..expire_spec(s, e.result.started_at_ms)
            };
            let o = if now_ms > until { Outcome::Unavailable } else { outcome };
            lemma_health_transition_rules(s1, o);
        }
    }
}

pub open spec fn aggregate_spec(required: Seq<HealthStatus>) -> HealthStatus {
    if required.len() == 0 || required.contains(HealthStatus::Unknown) {
        HealthStatus::Unknown
    } else if required.contains(HealthStatus::Incident) {
        HealthStatus::Incident
    } else if required.contains(HealthStatus::Degraded) {
        HealthStatus::Degraded
    } else if required.contains(HealthStatus::Recovering) {
        HealthStatus::Recovering
    } else {
        HealthStatus::Healthy
    }
}

impl HealthState {
    pub fn new(plan_id: String, plan_epoch: u64, graph_version: u64, probe_id: String) -> (r: Self)
        ensures
            r@ == (HealthStateView {
                plan_id: plan_id@,
                plan_epoch,
                graph_version,
                probe_id: probe_id@,
                status: HealthStatus::Unknown,
                incident_open: false,
                consecutive_violations: 0,
                consecutive_successes: 0,
                last_evidence_id: None,
                last_finished_at_ms: None,
                freshness_until_ms: None,
                symptom: None,
            }),
    {
        HealthState {
            plan_id,
            plan_epoch,
            graph_version,
            probe_id,
            status: HealthStatus::Unknown,
            incident_open: false,
            consecutive_violations: 0,
            consecutive_successes: 0,
            last_evidence_id: None,
            last_finished_at_ms: None,
            freshness_until_ms: None,
            symptom: None,
        }
    }

    pub fn duplicate(&self) -> (r: HealthState)
        ensures
            r@ == self@,
    {
        HealthState {
            plan_id: self.plan_id.clone(),
            plan_epoch: self.plan_epoch,
            graph_version: self.graph_version,
            probe_id: self.probe_id.clone(),
            status: self.status,
            incident_open: self.incident_open,
            consecutive_violations: self.consecutive_violations,
            consecutive_successes: self.consecutive_successes,
            last_evidence_id: match &self.last_evidence_id {
                Some(s) => Some(s.clone()),
                None => None,
            },
            last_finished_at_ms: self.last_finished_at_ms,
            freshness_until_ms: self.freshness_until_ms,
            symptom: self.symptom,
        }
    }

    /// Applies verified evidence, judged at `now_ms` with its assigned
    /// probe's interval and timeout.
    pub fn observe(&mut self, verified: &VerifiedEvidence, now_ms: u64) -> (r: Result<HealthTransition, HealthError>)
        ensures
            ({
                let e = verified.spec_evidence();
                let o = outcome_at_spec(e, verified.spec_interval_ms(), verified.spec_timeout_ms(), now_ms);
                match r {
                    Ok(t) => update_spec(old(self)@, e, o, now_ms, verified.spec_interval_ms(), verified.spec_timeout_ms())
                        == Ok::<(HealthStateView, HealthTransition), HealthError>((final(self)@, t)),
                    Err(x) => update_spec(old(self)@, e, o, now_ms, verified.spec_interval_ms(), verified.spec_timeout_ms())
                        == Err::<(HealthStateView, HealthTransition), HealthError>(x) && final(self)@ == old(self)@,
                }
            }),
    {
        let outcome = verified.outcome_at(now_ms);
        self.update(verified.evidence(), outcome, now_ms, verified.interval_ms(), verified.timeout_ms())
    }

    /// Applies one piece of evidence whose outcome at `now_ms` is `outcome`.
    /// Foreign, out-of-order and interval-less evidence is refused and leaves
    /// the state unchanged; a repeated evidence ID is a no-op.
    pub fn update(
        &mut self,
        e: &WitnessEvidence,
        outcome: Outcome,
        now_ms: u64,
        interval_ms: u64,
        timeout_ms: u64,
    ) -> (r: Result<HealthTransition, HealthError>)
        ensures
            match r {
                Ok(t) => update_spec(old(self)@, *e, outcome, now_ms, interval_ms, timeout_ms) == Ok::<(HealthStateView, HealthTransition), HealthError>((final(self)@, t)),
                Err(x) => update_spec(old(self)@, *e, outcome, now_ms, interval_ms, timeout_ms) == Err::<(HealthStateView, HealthTransition), HealthError>(x)
                    && final(self)@ == old(self)@,
            },
            // An incident opens only on the third consecutive violation.
            r == Ok::<HealthTransition, HealthError>(HealthTransition::Opened) ==> !old(self).incident_open && final(self).incident_open
                && final(self).consecutive_violations == 3 && old(self).consecutive_violations >= 2,
            // An incident closes only by a second consecutive success, reported as recovery.
            old(self).incident_open && !final(self).incident_open ==> r == Ok::<HealthTransition, HealthError>(HealthTransition::Recovered)
                && outcome == Outcome::Success && old(self).consecutive_successes >= 1 && final(self).consecutive_successes == 2,
            // Evidence that is not a success never closes an incident.
            old(self).incident_open && outcome != Outcome::Success ==> final(self).incident_open,
            // Ambiguous outcomes reset both streaks to an unknown status.
            r == Ok::<HealthTransition, HealthError>(HealthTransition::Updated) && outcome != Outcome::Success && !is_symptom(outcome)
                ==> final(self).status == HealthStatus::Unknown && final(self).consecutive_successes == 0
                && final(self).consecutive_violations == 0,
            // A repeated evidence ID changes nothing.
            r == Ok::<HealthTransition, HealthError>(HealthTransition::Duplicate) ==> final(self)@ == old(self)@,
    {
        if self.plan_id != e.plan_id || self.plan_epoch != e.plan_epoch || self.graph_version != e.graph_version
            || self.probe_id != e.result.probe_id {
            return Err(HealthError::Scope);
        }
        if interval_ms == 0 || timeout_ms == 0 {
            return Err(HealthError::Interval);
        }
        let duplicate = match &self.last_evidence_id {
            Some(id) => *id == e.evidence_id,
            None => false,
        };
        if duplicate {
            return Ok(HealthTransition::Duplicate);
        }
        let late = match self.last_finished_at_ms {
            Some(t) => e.result.started_at_ms <= t || e.result.finished_at_ms <= t,
            None => false,
        };
        if late {
            return Err(HealthError::OutOfOrder);
        }
        // A long gap breaks consecutive streaks even if no periodic expiry ran.
        self.expire(e.result.started_at_ms);
        self.last_evidence_id = Some(e.evidence_id.clone());
        self.last_finished_at_ms = Some(e.result.finished_at_ms);
        let fresh = e.result.finished_at_ms.saturating_add(saturating_mul_u64(interval_ms, 3)).saturating_add(timeout_ms);
        self.freshness_until_ms = Some(fresh);
        let effective = if now_ms > fresh { Outcome::Unavailable } else { outcome };
        match effective {
            Outcome::Success => {
                self.symptom = None;
                self.consecutive_violations = 0;
                self.consecutive_successes = if self.consecutive_successes >= 1 { 2 } else { 1 };
                if self.incident_open && self.consecutive_successes < 2 {
                    self.status = HealthStatus::Recovering;
                } else if self.incident_open {
                    self.incident_open = false;
                    self.status = HealthStatus::Healthy;
                    return Ok(HealthTransition::Recovered);
                } else {
                    self.status = HealthStatus::Healthy;
                }
            },
            Outcome::Violation | Outcome::Refused | Outcome::DnsNxDomain | Outcome::DnsServerFailure
            | Outcome::TlsFailure => {
                self.symptom = Some(effective);
                self.consecutive_successes = 0;
                self.consecutive_violations = if self.consecutive_violations >= 2 { 3 } else { self.consecutive_violations + 1 };
                if self.consecutive_violations == 3 && !self.incident_open {
                    self.incident_open = true;
                    self.status = HealthStatus::Incident;
                    return Ok(HealthTransition::Opened);
                }
                self.status = if self.incident_open { HealthStatus::Incident } else { HealthStatus::Degraded };
            },
            // Ambiguity is retained; it cannot prove a policy or service claim.
            _ => self.make_unknown(Some(effective)),
        }
        Ok(HealthTransition::Updated)
    }

    /// Drops to unknown once the freshness horizon has passed; an open
    /// incident stays open.
    pub fn expire(&mut self, now_ms: u64)
        ensures
            final(self)@ == expire_spec(old(self)@, now_ms),
            final(self).incident_open == old(self).incident_open,
    {
        let stale = match self.freshness_until_ms {
            None => true,
            Some(t) => now_ms > t,
        };
        if stale {
            self.make_unknown(None);
        }
    }

    fn make_unknown(&mut self, symptom: Option<Outcome>)
        ensures
            final(self)@ == unknown_spec(old(self)@, symptom),
    {
        self.status = HealthStatus::Unknown;
        self.consecutive_successes = 0;
        self.consecutive_violations = 0;
        self.symptom = symptom;
        // An open incident is never closed by missing evidence.
    }
}

/// Law: an open incident outranks degradation and recovery. When every
/// required status is known and one of them is an incident, the aggregate is
/// an incident; the aggregate is degraded only when some required status is
/// degraded and none is an incident or unknown; it is recovering only when
/// none is an incident, degraded or unknown.
pub proof fn lemma_incident_outranks_degradation(required: Seq<HealthStatus>)
    ensures
        required.len() > 0 && (forall|i: int| 0 <= i < required.len() ==> required[i] != HealthStatus::Unknown)
            && (exists|i: int| 0 <= i < required.len() && required[i] == HealthStatus::Incident)
            ==> aggregate_spec(required) == HealthStatus::Incident,
        aggregate_spec(required) == HealthStatus::Degraded ==> (exists|i: int| 0 <= i < required.len() && required[i] == HealthStatus::Degraded)
            && forall|i: int| 0 <= i < required.len() ==> required[i] != HealthStatus::Incident && required[i] != HealthStatus::Unknown,
        aggregate_spec(required) == HealthStatus::Recovering ==> forall|i: int| 0 <= i < required.len() ==> required[i]
            != HealthStatus::Incident && required[i] != HealthStatus::Degraded && required[i] != HealthStatus::Unknown,
        aggregate_spec(required) == HealthStatus::Incident ==> exists|i: int| 0 <= i < required.len() && required[i] == HealthStatus::Incident,
        aggregate_spec(required) == HealthStatus::Recovering ==> exists|i: int| 0 <= i < required.len() && required[i] == HealthStatus::Recovering,
        aggregate_spec(required) == HealthStatus::Unknown <==> required.len() == 0 || exists|i: int| 0 <= i < required.len()
            && required[i] == HealthStatus::Unknown,
{
    if required.contains(HealthStatus::Unknown) {
        let k = choose|k: int| 0 <= k < required.len() && required[k] == HealthStatus::Unknown;
    }
    if exists|i: int| 0 <= i < required.len() && required[i] == HealthStatus::Unknown {
        let k = choose|k: int| 0 <= k < required.len() && required[k] == HealthStatus::Unknown;
        assert(required.contains(HealthStatus::Unknown));
    }
    if aggregate_spec(required) == HealthStatus::Recovering {
        assert(required.contains(HealthStatus::Recovering));
    }
    if required.len() > 0 && (forall|i: int| 0 <= i < required.len() ==> required[i] != HealthStatus::Unknown)
        && (exists|i: int| 0 <= i < required.len() && required[i] == HealthStatus::Incident) {
        let i = choose|i: int| 0 <= i < required.len() && required[i] == HealthStatus::Incident;
        assert(required.contains(HealthStatus::Incident));
        if required.contains(HealthStatus::Unknown) {
            let k = choose|k: int| 0 <= k < required.len() && required[k] == HealthStatus::Unknown;
            assert(required[k] != HealthStatus::Unknown);
        }
    }
    if aggregate_spec(required) == HealthStatus::Degraded {
        assert(required.contains(HealthStatus::Degraded));
        assert forall|i: int| 0 <= i < required.len() implies required[i] != HealthStatus::Incident && required[i] != HealthStatus::Unknown by {
            if required[i] == HealthStatus::Incident {
                assert(required.contains(HealthStatus::Incident));
            }
            if required[i] == HealthStatus::Unknown {
                assert(required.contains(HealthStatus::Unknown));
            }
        }
    }
    if aggregate_spec(required) == HealthStatus::Recovering {
        assert forall|i: int| 0 <= i < required.len() implies required[i] != HealthStatus::Incident && required[i]
            != HealthStatus::Degraded && required[i] != HealthStatus::Unknown by {
            if required[i] == HealthStatus::Incident {
                assert(required.contains(HealthStatus::Incident));
            }
            if required[i] == HealthStatus::Degraded {
                assert(required.contains(HealthStatus::Degraded));
            }
            if required[i] == HealthStatus::Unknown {
                assert(required.contains(HealthStatus::Unknown));
            }
        }
    }
    if aggregate_spec(required) == HealthStatus::Incident {
        assert(required.contains(HealthStatus::Incident));
    }
}

/// Dependency health cannot be elevated by a healthy parent probe when any
/// required observation is unknown, degraded, incident or still recovering.
pub fn aggregate_health(required: &[HealthStatus]) -> (r: HealthStatus)
    ensures
        r == aggregate_spec(required@),
        required@.len() > 0 && (forall|i: int| 0 <= i < required@.len() ==> required@[i] != HealthStatus::Unknown)
            && (exists|i: int| 0 <= i < required@.len() && required@[i] == HealthStatus::Incident) ==> r == HealthStatus::Incident,
        r == HealthStatus::Degraded ==> forall|i: int| 0 <= i < required@.len() ==> required@[i] != HealthStatus::Incident,
        r == HealthStatus::Healthy <==> required@.len() > 0
            && forall|i: int| 0 <= i < required@.len() ==> required@[i] == HealthStatus::Healthy,
{
    let mut unknown = required.len() == 0;
    let mut incident = false;
    let mut degraded = false;
    let mut recovering = false;
    let mut i: usize = 0;
    while i < required.len()
        invariant
            i <= required@.len(),
            unknown == (required@.len() == 0 || required@.subrange(0, i as int).contains(HealthStatus::Unknown)),
            incident == required@.subrange(0, i as int).contains(HealthStatus::Incident),
            degraded == required@.subrange(0, i as int).contains(HealthStatus::Degraded),
            recovering == required@.subrange(0, i as int).contains(HealthStatus::Recovering),
        decreases required@.len() - i,
    {
        let ghost before = required@.subrange(0, i as int);
        assert(required@.subrange(0, i + 1) =~= before.push(required@[i as int]));
        match required[i] {
            HealthStatus::Unknown => unknown = true,
            HealthStatus::Incident => incident = true,
            HealthStatus::Degraded => degraded = true,
            HealthStatus::Recovering => recovering = true,
            HealthStatus::Healthy => {},
        }
        proof {
        lemma_incident_outranks_degradation(required@);
    }
    proof {
            let after = required@.subrange(0, i + 1);
            assert(after.contains(required@[i as int])) by {
                assert(after[i as int] == required@[i as int]);
            }
            assert forall|x: HealthStatus| after.contains(x) <==> (before.contains(x) || x == required@[i as int]) by {
                if after.contains(x) {
                    let k = choose|k: int| 0 <= k < after.len() && after[k] == x;
                    if k < i {
                        assert(before[k] == x);
                    }
                }
                if before.contains(x) {
                    let k = choose|k: int| 0 <= k < before.len() && before[k] == x;
                    assert(after[k] == x);
                }
            }
        }
        i = i + 1;
    }
    assert(required@.subrange(0, required@.len() as int) =~= required@);
    proof {
        if required@.len() > 0 && !required@.contains(HealthStatus::Unknown) && !required@.contains(HealthStatus::Incident)
            && !required@.contains(HealthStatus::Degraded) && !required@.contains(HealthStatus::Recovering) {
            assert forall|i: int| 0 <= i < required@.len() implies required@[i] == HealthStatus::Healthy by {
                if required@[i] != HealthStatus::Healthy {
                    assert(required@.contains(required@[i]));
                }
            }
        }
        if required@.len() > 0 && (forall|i: int| 0 <= i < required@.len() ==> required@[i] == HealthStatus::Healthy) {
            if required@.contains(HealthStatus::Unknown) {
                let k = choose|k: int| 0 <= k < required@.len() && required@[k] == HealthStatus::Unknown;
                assert(required@[k] == HealthStatus::Healthy);
            }
            if required@.contains(HealthStatus::Incident) {
                let k = choose|k: int| 0 <= k < required@.len() && required@[k] == HealthStatus::Incident;
                assert(required@[k] == HealthStatus::Healthy);
            }
            if required@.contains(HealthStatus::Degraded) {
                let k = choose|k: int| 0 <= k < required@.len() && required@[k] == HealthStatus::Degraded;
                assert(required@[k] == HealthStatus::Healthy);
            }
            if required@.contains(HealthStatus::Recovering) {
                let k = choose|k: int| 0 <= k < required@.len() && required@[k] == HealthStatus::Recovering;
                assert(required@[k] == HealthStatus::Healthy);
            }
        }
    }
    if unknown {
        HealthStatus::Unknown
    } else if incident {
        HealthStatus::Incident
    } else if degraded {
        HealthStatus::Degraded
    } else if recovering {
        HealthStatus::Recovering
    } else {
        HealthStatus::Healthy
    }
}

} // verus!

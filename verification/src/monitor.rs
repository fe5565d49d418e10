//! The controller's assurance monitor: activated plans and their probes'
//! schedules, the immutable evidence history and the health of each probe.
//! Signatures are verified before this boundary; the monitor still checks the
//! currently enabled plan, epoch, graph, probe and device binding, because a
//! previously valid assignment can be stale after a later activation.
use crate::assurance::{AssurancePlan, ProbeSpec, ProbeSpecView};
use crate::attestation::{outcome_at_spec, VerifiedEvidence};
use crate::health::{expire_spec, update_spec, HealthError, HealthState, HealthStateView, HealthStatus, HealthTransition};
use crate::identity::{DsseEnvelope, DsseSignature};
use crate::protocol::{payload_digest, payload_digest_spec, RevisionRef, RevisionRefView};
use crate::adapters::decimal_text;
use crate::state::{sat_add, sat_sub};
use crate::storage::{first_in_order, CandidateView};
use crate::text::byte_len;
use vstd::prelude::*;

verus! {

/// Evidence without an incident referencing it is kept thirty days.
pub const EVIDENCE_RETENTION_MS: u64 = 2_592_000_000;

/// Incidents are kept a year.
pub const INCIDENT_RETENTION_MS: u64 = 31_536_000_000;

#[derive(Debug, Clone, Copy, PartialEq, Eq, Structural)]
pub enum MonitorError {
    /// Invalid monitor input.
    Invalid,
    /// The evidence ID was reused with different immutable contents.
    ConflictingEvidenceId,
    /// The evidence is not bound to the current enabled plan, graph, probe
    /// or device.
    StaleScope,
    Health(HealthError),
    /// The stored history is corrupt.
    CorruptHistory,
}

#[derive(Debug, Clone, Copy, PartialEq, Eq, Structural)]
pub enum IngestOutcome {
    Inserted(HealthTransition),
    Duplicate,
}

/// A signed envelope as plain values.
pub struct SignedEnvelopeView {
    pub payload_type: Seq<char>,
    pub payload: Seq<char>,
    pub signatures: Seq<(Seq<char>, Seq<char>)>,
}

pub open spec fn envelope_view(e: DsseEnvelope) -> SignedEnvelopeView {
    SignedEnvelopeView {
        payload_type: e.payload_type@,
        payload: e.payload@,
        signatures: e.signatures@.map_values(|s: DsseSignature| (s.keyid@, s.sig@)),
    }
}

pub(crate) proof fn lemma_same_envelope_view(a: DsseEnvelope, b: DsseEnvelope)
    requires
        crate::identity::same_envelope(a, b),
    ensures
        envelope_view(a) == envelope_view(b),
{
    assert(envelope_view(a).signatures =~= envelope_view(b).signatures);
}

/// An activated plan epoch.
struct PlanRecord {
    plan_id: String,
    epoch: u64,
    graph_version: u64,
    revision: RevisionRef,
    plan_digest: String,
    enabled: bool,
    activated_at_ms: u64,
}

pub struct PlanRow {
    pub plan_id: Seq<char>,
    pub epoch: u64,
    pub graph_version: u64,
    pub revision: RevisionRefView,
    pub plan_digest: Seq<char>,
    pub enabled: bool,
    pub activated_at_ms: u64,
}

impl View for PlanRecord {
    type V = PlanRow;
    closed spec fn view(&self) -> PlanRow {
        PlanRow {
            plan_id: self.plan_id@,
            epoch: self.epoch,
            graph_version: self.graph_version,
            revision: self.revision@,
            plan_digest: self.plan_digest@,
            enabled: self.enabled,
            activated_at_ms: self.activated_at_ms,
        }
    }
}

/// A probe of an activated plan epoch: its schedule, lease and health.
struct ProbeRecord {
    plan_id: String,
    epoch: u64,
    graph_version: u64,
    probe: ProbeSpec,
    probe_digest: String,
    due_at_ms: u64,
    lease_token: Option<String>,
    lease_until_ms: Option<u64>,
    attempts: u64,
    lease_generation: u64,
    health: HealthState,
}

pub struct ProbeRow {
    pub plan_id: Seq<char>,
    pub epoch: u64,
    pub graph_version: u64,
    pub probe: ProbeSpecView,
    pub probe_digest: Seq<char>,
    pub due_at_ms: u64,
    pub lease_token: Option<Seq<char>>,
    pub lease_until_ms: Option<u64>,
    pub attempts: u64,
    pub lease_generation: u64,
    pub health: HealthStateView,
}

pub open spec fn opt_view(o: Option<String>) -> Option<Seq<char>> {
    match o {
        Some(s) => Some(s@),
        None => None,
    }
}

impl View for ProbeRecord {
    type V = ProbeRow;
    closed spec fn view(&self) -> ProbeRow {
        ProbeRow {
            plan_id: self.plan_id@,
            epoch: self.epoch,
            graph_version: self.graph_version,
            probe: self.probe@,
            probe_digest: self.probe_digest@,
            due_at_ms: self.due_at_ms,
            lease_token: opt_view(self.lease_token),
            lease_until_ms: self.lease_until_ms,
            attempts: self.attempts,
            lease_generation: self.lease_generation,
            health: self.health@,
        }
    }
}

/// Stored evidence: its identity digest and the original signed envelopes.
struct EvidenceRecord {
    evidence_id: String,
    digest: String,
    received_at_ms: u64,
    evidence_envelope: DsseEnvelope,
    assignment_envelope: DsseEnvelope,
}

pub struct EvidenceRow {
    pub evidence_id: Seq<char>,
    pub digest: Seq<char>,
    pub received_at_ms: u64,
    pub evidence_envelope: SignedEnvelopeView,
    pub assignment_envelope: SignedEnvelopeView,
}

impl View for EvidenceRecord {
    type V = EvidenceRow;
    closed spec fn view(&self) -> EvidenceRow {
        EvidenceRow {
            evidence_id: self.evidence_id@,
            digest: self.digest@,
            received_at_ms: self.received_at_ms,
            evidence_envelope: envelope_view(self.evidence_envelope),
            assignment_envelope: envelope_view(self.assignment_envelope),
        }
    }
}

/// An incident opening or recovery, with the health state it left.
pub struct IncidentEvent {
    pub evidence_id: String,
    pub transition: HealthTransition,
    pub at_ms: u64,
    pub state: HealthState,
}

pub struct IncidentView {
    pub evidence_id: Seq<char>,
    pub transition: HealthTransition,
    pub at_ms: u64,
    pub state: HealthStateView,
}

impl View for IncidentEvent {
    type V = IncidentView;
    open spec fn view(&self) -> IncidentView {
        IncidentView { evidence_id: self.evidence_id@, transition: self.transition, at_ms: self.at_ms, state: self.state@ }
    }
}

spec fn plan_rows(plans: Seq<PlanRecord>) -> Seq<PlanRow> {
    plans.map_values(|p: PlanRecord| p@)
}

spec fn probe_rows(probes: Seq<ProbeRecord>) -> Seq<ProbeRow> {
    probes.map_values(|p: ProbeRecord| p@)
}

spec fn evidence_rows(rows: Seq<EvidenceRecord>) -> Seq<EvidenceRow> {
    rows.map_values(|e: EvidenceRecord| e@)
}

pub open spec fn probe_views(probes: Seq<ProbeSpec>) -> Seq<ProbeSpecView> {
    probes.map_values(|p: ProbeSpec| p@)
}

/// A probe that is due, as scheduled.
pub struct ScheduledProbe {
    pub plan_id: String,
    pub plan_epoch: u64,
    pub graph_version: u64,
    pub probe: ProbeSpec,
    pub due_at_ms: u64,
}

pub struct ScheduledView {
    pub plan_id: Seq<char>,
    pub plan_epoch: u64,
    pub graph_version: u64,
    pub probe: ProbeSpecView,
    pub due_at_ms: u64,
}

impl View for ScheduledProbe {
    type V = ScheduledView;
    open spec fn view(&self) -> ScheduledView {
        ScheduledView {
            plan_id: self.plan_id@,
            plan_epoch: self.plan_epoch,
            graph_version: self.graph_version,
            probe: self.probe@,
            due_at_ms: self.due_at_ms,
        }
    }
}

/// A probe leased to one worker until `lease_until_ms`.
pub struct ClaimedProbe {
    pub scheduled: ScheduledProbe,
    pub lease_token: String,
    pub lease_until_ms: u64,
    pub lease_generation: u64,
}

pub struct ClaimedView {
    pub scheduled: ScheduledView,
    pub lease_token: Seq<char>,
    pub lease_until_ms: u64,
    pub lease_generation: u64,
}

impl View for ClaimedProbe {
    type V = ClaimedView;
    open spec fn view(&self) -> ClaimedView {
        ClaimedView {
            scheduled: self.scheduled@,
            lease_token: self.lease_token@,
            lease_until_ms: self.lease_until_ms,
            lease_generation: self.lease_generation,
        }
    }
}

/// The original signed envelopes retained for audit.
pub struct EvidenceAuditRecord {
    pub evidence_id: String,
    pub evidence_envelope: DsseEnvelope,
    pub assignment_envelope: DsseEnvelope,
}

pub struct MonitorView {
    pub plans: Seq<PlanRow>,
    pub probes: Seq<ProbeRow>,
    pub evidence: Seq<EvidenceRow>,
    pub incidents: Seq<IncidentView>,
}

/// The monitor's records, kept in memory; a host persists them.
pub struct MonitorStore {
    plans: Vec<PlanRecord>,
    probes: Vec<ProbeRecord>,
    evidence: Vec<EvidenceRecord>,
    incidents: Vec<IncidentEvent>,
}

impl View for MonitorStore {
    type V = MonitorView;
    closed spec fn view(&self) -> MonitorView {
        MonitorView {
            plans: plan_rows(self.plans@),
            probes: probe_rows(self.probes@),
            evidence: evidence_rows(self.evidence@),
            incidents: self.incidents@.map_values(|i: IncidentEvent| i@),
        }
    }
}

/// `k` is the first plan row with this plan ID and epoch.
pub open spec fn first_plan(plans: Seq<PlanRow>, id: Seq<char>, epoch: u64, k: int) -> bool {
    &&& 0 <= k < plans.len()
    &&& plans[k].plan_id == id && plans[k].epoch == epoch
    &&& forall|m: int| 0 <= m < k ==> !((#[trigger] plans[m]).plan_id == id && plans[m].epoch == epoch)
}

/// The probes of a plan may be scheduled: named, distinct, with an
/// interval and a timeout.
pub open spec fn probes_admissible(probes: Seq<ProbeSpecView>) -> bool {
    &&& forall|i: int| 0 <= i < probes.len() ==> (#[trigger] probes[i]).id.len() > 0 && probes[i].interval_ms > 0
        && probes[i].limits.timeout_ms > 0
    &&& forall|i: int, j: int| 0 <= i < j < probes.len() ==> (#[trigger] probes[i]).id != (#[trigger] probes[j]).id
}

pub open spec fn new_health(plan_id: Seq<char>, epoch: u64, graph_version: u64, probe_id: Seq<char>) -> HealthStateView {
    HealthStateView {
        plan_id,
        plan_epoch: epoch,
        graph_version,
        probe_id,
        status: HealthStatus::Unknown,
        incident_open: false,
        consecutive_violations: 0,
        consecutive_successes: 0,
        last_evidence_id: None,
        last_finished_at_ms: None,
        freshness_until_ms: None,
        symptom: None,
    }
}

pub open spec fn new_probe_row(
    plan_id: Seq<char>,
    epoch: u64,
    graph_version: u64,
    probe: ProbeSpecView,
    digest: Seq<char>,
    now_ms: u64,
) -> ProbeRow {
    ProbeRow {
        plan_id,
        epoch,
        graph_version,
        probe,
        probe_digest: digest,
        due_at_ms: now_ms,
        lease_token: None,
        lease_until_ms: None,
        attempts: 0,
        lease_generation: 0,
        health: new_health(plan_id, epoch, graph_version, probe.id),
    }
}

/// Every earlier epoch of the plan disabled.
pub open spec fn disable_plan(plans: Seq<PlanRow>, id: Seq<char>) -> Seq<PlanRow> {
    plans.map_values(|p: PlanRow| if p.plan_id == id { PlanRow { enabled: false, ..p } } else { p })
}

pub open spec fn activated(
    v: MonitorView,
    plan_id: Seq<char>,
    epoch: u64,
    graph_version: u64,
    revision: RevisionRefView,
    probes: Seq<ProbeSpecView>,
    plan_digest: Seq<char>,
    probe_digests: Seq<Seq<char>>,
    now_ms: u64,
) -> MonitorView {
    MonitorView {
        plans: disable_plan(v.plans, plan_id).push(
            PlanRow { plan_id, epoch, graph_version, revision, plan_digest, enabled: true, activated_at_ms: now_ms },
        ),
        probes: v.probes + Seq::new(
            probes.len(),
            |i: int| new_probe_row(plan_id, epoch, graph_version, probes[i], probe_digests[i], now_ms),
        ),
        ..v
    }
}

/// What activating a plan epoch does: an empty plan is invalid; the same
/// epoch again is a no-op with the same digest and invalid with another;
/// epochs and graph versions only move forward; then every probe must be
/// admissible, each with its digest.
pub open spec fn activation(
    v: MonitorView,
    plan_id: Seq<char>,
    epoch: u64,
    graph_version: u64,
    revision: RevisionRefView,
    probes: Seq<ProbeSpecView>,
    plan_digest: Seq<char>,
    probe_digests: Seq<Seq<char>>,
    now_ms: u64,
) -> Result<MonitorView, MonitorError> {
    if plan_id.len() == 0 || probes.len() == 0 {
        Err(MonitorError::Invalid)
    } else if exists|k: int| #[trigger] first_plan(v.plans, plan_id, epoch, k) {
        let k = choose|k: int| first_plan(v.plans, plan_id, epoch, k);
        if v.plans[k].plan_digest == plan_digest { Ok(v) } else { Err(MonitorError::Invalid) }
    } else if exists|i: int| 0 <= i < v.plans.len() && (#[trigger] v.plans[i]).plan_id == plan_id
        && (epoch <= v.plans[i].epoch || graph_version <= v.plans[i].graph_version) {
        Err(MonitorError::Invalid)
    } else if probe_digests.len() != probes.len() || !probes_admissible(probes) {
        Err(MonitorError::Invalid)
    } else {
        Ok(activated(v, plan_id, epoch, graph_version, revision, probes, plan_digest, probe_digests, now_ms))
    }
}

fn find_plan(plans: &Vec<PlanRecord>, id: &str, epoch: u64) -> (r: Option<usize>)
    ensures
        match r {
            Some(k) => first_plan(plan_rows(plans@), id@, epoch, k as int),
            None => !exists|k: int| #[trigger] first_plan(plan_rows(plans@), id@, epoch, k),
        },
{
    let ghost rows = plan_rows(plans@);
    let mut i: usize = 0;
    while i < plans.len()
        invariant
            i <= plans@.len(),
            rows == plan_rows(plans@),
            forall|m: int| 0 <= m < i ==> !((#[trigger] rows[m]).plan_id == id@ && rows[m].epoch == epoch),
        decreases plans@.len() - i,
    {
        assert(rows[i as int] == plans@[i as int]@);
        if plans[i].epoch == epoch && crate::text::str_eq(plans[i].plan_id.as_str(), id) {
            return Some(i);
        }
        i = i + 1;
    }
    None
}

/// Whether some epoch of the plan is at or past this epoch or graph version.
fn not_forward(plans: &Vec<PlanRecord>, id: &str, epoch: u64, graph_version: u64) -> (r: bool)
    ensures
        r == exists|i: int| 0 <= i < plans@.len() && (#[trigger] plan_rows(plans@)[i]).plan_id == id@
            && (epoch <= plans@[i].epoch || graph_version <= plans@[i].graph_version),
{
    let ghost rows = plan_rows(plans@);
    let mut i: usize = 0;
    while i < plans.len()
        invariant
            i <= plans@.len(),
            rows == plan_rows(plans@),
            forall|m: int| 0 <= m < i ==> !((#[trigger] rows[m]).plan_id == id@ && (epoch <= plans@[m].epoch
                || graph_version <= plans@[m].graph_version)),
        decreases plans@.len() - i,
    {
        assert(rows[i as int] == plans@[i as int]@);
        if crate::text::str_eq(plans[i].plan_id.as_str(), id) && (epoch <= plans[i].epoch
            || graph_version <= plans[i].graph_version) {
            return true;
        }
        i = i + 1;
    }
    false
}

fn probes_ok(probes: &Vec<ProbeSpec>) -> (r: bool)
    ensures
        r == probes_admissible(probe_views(probes@)),
{
    let ghost ps = probe_views(probes@);
    let mut i: usize = 0;
    while i < probes.len()
        invariant
            i <= probes@.len(),
            ps == probe_views(probes@),
            forall|m: int| 0 <= m < i ==> (#[trigger] ps[m]).id.len() > 0 && ps[m].interval_ms > 0
                && ps[m].limits.timeout_ms > 0,
            forall|m: int, n: int| 0 <= m < n < i ==> (#[trigger] ps[m]).id != (#[trigger] ps[n]).id,
        decreases probes@.len() - i,
    {
        assert(ps[i as int] == probes@[i as int]@);
        let p = &probes[i];
        if crate::text::str_empty(&p.id) || p.interval_ms == 0 || p.limits.timeout_ms == 0 {
            assert(ps[i as int].id.len() == 0 || ps[i as int].interval_ms == 0 || ps[i as int].limits.timeout_ms == 0);
            return false;
        }
        let mut j: usize = 0;
        while j < i
            invariant
                j <= i < probes@.len(),
                ps == probe_views(probes@),
                forall|m: int| 0 <= m < j ==> (#[trigger] ps[m]).id != ps[i as int].id,
            decreases i - j,
        {
            assert(ps[j as int] == probes@[j as int]@);
            if probes[j].id == probes[i].id {
                assert(ps[j as int].id == ps[i as int].id);
                return false;
            }
            j = j + 1;
        }
        i = i + 1;
    }
    true
}

/// `k` is the first enabled plan row with this plan ID and epoch.
pub open spec fn first_enabled_plan(plans: Seq<PlanRow>, id: Seq<char>, epoch: u64, k: int) -> bool {
    &&& 0 <= k < plans.len()
    &&& plans[k].plan_id == id && plans[k].epoch == epoch && plans[k].enabled
    &&& forall|m: int| 0 <= m < k ==> !((#[trigger] plans[m]).plan_id == id && plans[m].epoch == epoch && plans[m].enabled)
}

/// `k` is the first probe row of this plan epoch with this probe ID.
pub open spec fn first_probe(probes: Seq<ProbeRow>, id: Seq<char>, epoch: u64, probe_id: Seq<char>, k: int) -> bool {
    &&& 0 <= k < probes.len()
    &&& probes[k].plan_id == id && probes[k].epoch == epoch && probes[k].probe.id == probe_id
    &&& forall|m: int| 0 <= m < k ==> !((#[trigger] probes[m]).plan_id == id && probes[m].epoch == epoch
        && probes[m].probe.id == probe_id)
}

/// `k` is the first evidence row with this evidence ID.
pub open spec fn first_evidence(rows: Seq<EvidenceRow>, id: Seq<char>, k: int) -> bool {
    &&& 0 <= k < rows.len()
    &&& rows[k].evidence_id == id
    &&& forall|m: int| 0 <= m < k ==> (#[trigger] rows[m]).evidence_id != id
}

/// A count as eight big-endian bytes.
pub open spec fn be64(n: int) -> Seq<u8> {
    seq![
        ((n / 72057594037927936) % 256) as u8,
        ((n / 281474976710656) % 256) as u8,
        ((n / 1099511627776) % 256) as u8,
        ((n / 4294967296) % 256) as u8,
        ((n / 16777216) % 256) as u8,
        ((n / 65536) % 256) as u8,
        ((n / 256) % 256) as u8,
        (n % 256) as u8,
    ]
}

/// The evidence's idempotency identity covers the exact two signed payload
/// strings, each preceded by its length: a retransmit with another
/// signature is the same evidence, changed signed bytes are not.
pub open spec fn signed_payload_bytes(evidence_payload: Seq<char>, assignment_payload: Seq<char>) -> Seq<u8> {
    let e = vstd::utf8::encode_utf8(evidence_payload);
    let a = vstd::utf8::encode_utf8(assignment_payload);
    be64(e.len() as int) + e + be64(a.len() as int) + a
}

pub open spec fn signed_digest(v: VerifiedEvidence) -> Seq<char> {
    payload_digest_spec(signed_payload_bytes(v.spec_envelope().payload@, v.spec_assignment_envelope().payload@))
}

/// The store after evidence is recorded with the health it left and, for
/// an opening or a recovery, an incident.
pub open spec fn ingested(
    v: MonitorView,
    j: int,
    s: HealthStateView,
    t: HealthTransition,
    verified: VerifiedEvidence,
    now_ms: u64,
) -> MonitorView {
    let id = verified.spec_evidence().evidence_id@;
    MonitorView {
        probes: v.probes.update(j, ProbeRow { health: s, ..v.probes[j] }),
        evidence: v.evidence.push(evidence_row(verified, now_ms)),
        incidents: if t == HealthTransition::Opened || t == HealthTransition::Recovered {
            v.incidents.push(IncidentView { evidence_id: id, transition: t, at_ms: now_ms, state: s })
        } else {
            v.incidents
        },
        ..v
    }
}

/// The evidence row ingestion records.
pub open spec fn evidence_row(verified: VerifiedEvidence, now_ms: u64) -> EvidenceRow {
    EvidenceRow {
        evidence_id: verified.spec_evidence().evidence_id@,
        digest: signed_digest(verified),
        received_at_ms: now_ms,
        evidence_envelope: envelope_view(verified.spec_envelope()),
        assignment_envelope: envelope_view(verified.spec_assignment_envelope()),
    }
}

/// What ingesting evidence with a new ID does: it must match the enabled
/// plan epoch's graph and revision and the probe's device and digest; then
/// the probe's health takes it.
#[verifier::opaque]
pub open spec fn ingest_new(v: MonitorView, verified: VerifiedEvidence, now_ms: u64)
    -> Result<(MonitorView, IngestOutcome), MonitorError> {
    let e = verified.spec_evidence();
    if !(exists|i: int| #[trigger] first_enabled_plan(v.plans, e.plan_id@, e.plan_epoch, i))
        || !(exists|j: int| #[trigger] first_probe(v.probes, e.plan_id@, e.plan_epoch, e.result.probe_id@, j)) {
        Err(MonitorError::StaleScope)
    } else {
        let i = choose|i: int| #[trigger] first_enabled_plan(v.plans, e.plan_id@, e.plan_epoch, i);
        let j = choose|j: int| #[trigger] first_probe(v.probes, e.plan_id@, e.plan_epoch, e.result.probe_id@, j);
        let p = v.plans[i];
        let q = v.probes[j];
        if p.graph_version != e.graph_version || p.revision != e.revision@ || q.probe.device != e.device@
            || q.probe_digest != e.probe_digest@ {
            Err(MonitorError::StaleScope)
        } else {
            let interval = verified.spec_interval_ms();
            let timeout = verified.spec_timeout_ms();
            match update_spec(q.health, e, outcome_at_spec(e, interval, timeout, now_ms), now_ms, interval, timeout) {
                Err(h) => Err(MonitorError::Health(h)),
                Ok((s, t)) => Ok((ingested(v, j, s, t, verified, now_ms), IngestOutcome::Inserted(t))),
            }
        }
    }
}

/// What ingesting verified evidence does: a known evidence ID is a
/// duplicate with the same signed payloads and a conflict otherwise; a new
/// one is checked against the current scope and recorded.
pub open spec fn ingest_decision(v: MonitorView, verified: VerifiedEvidence, now_ms: u64)
    -> Result<(MonitorView, IngestOutcome), MonitorError> {
    let e = verified.spec_evidence();
    if exists|k: int| #[trigger] first_evidence(v.evidence, e.evidence_id@, k) {
        let k = choose|k: int| #[trigger] first_evidence(v.evidence, e.evidence_id@, k);
        if v.evidence[k].digest == signed_digest(verified) {
            Ok((v, IngestOutcome::Duplicate))
        } else {
            Err(MonitorError::ConflictingEvidenceId)
        }
    } else {
        ingest_new(v, verified, now_ms)
    }
}

/// Law: evidence enters the monitor only within the current scope. A newly
/// recorded piece of evidence has an ID the monitor did not hold, belongs to
/// an enabled plan of its ID and epoch with its graph version and revision,
/// and to a probe of that plan epoch with its device and probe digest; it is
/// appended to the evidence records. Evidence with a new ID for a plan epoch
/// that is not enabled is refused as stale.
pub proof fn lemma_ingest_within_current_scope(v: MonitorView, verified: VerifiedEvidence, now_ms: u64)
    ensures
        ingest_decision(v, verified, now_ms) matches Ok((w, IngestOutcome::Inserted(_))) ==> ({
            let e = verified.spec_evidence();
            &&& forall|k: int| 0 <= k < v.evidence.len() ==> (#[trigger] v.evidence[k]).evidence_id != e.evidence_id@
            &&& exists|i: int| 0 <= i < v.plans.len() && (#[trigger] v.plans[i]).enabled && v.plans[i].plan_id == e.plan_id@
                && v.plans[i].epoch == e.plan_epoch && v.plans[i].graph_version == e.graph_version && v.plans[i].revision == e.revision@
            &&& exists|j: int| 0 <= j < v.probes.len() && (#[trigger] v.probes[j]).plan_id == e.plan_id@ && v.probes[j].epoch
                == e.plan_epoch && v.probes[j].probe.id == e.result.probe_id@ && v.probes[j].probe.device == e.device@
                && v.probes[j].probe_digest == e.probe_digest@
            &&& w.evidence == v.evidence.push(evidence_row(verified, now_ms))
        }),
        (forall|k: int| 0 <= k < v.evidence.len() ==> (#[trigger] v.evidence[k]).evidence_id != verified.spec_evidence().evidence_id@)
            && (forall|i: int| 0 <= i < v.plans.len() ==> !((#[trigger] v.plans[i]).enabled && v.plans[i].plan_id
            == verified.spec_evidence().plan_id@ && v.plans[i].epoch == verified.spec_evidence().plan_epoch))
            ==> ingest_decision(v, verified, now_ms) == Err::<(MonitorView, IngestOutcome), MonitorError>(MonitorError::StaleScope),
{
    reveal(ingest_new);
    let e = verified.spec_evidence();
    if exists|k: int| #[trigger] first_evidence(v.evidence, e.evidence_id@, k) {
        let k = choose|k: int| #[trigger] first_evidence(v.evidence, e.evidence_id@, k);
        assert(v.evidence[k].evidence_id == e.evidence_id@);
    } else {
        assert forall|k: int| 0 <= k < v.evidence.len() implies (#[trigger] v.evidence[k]).evidence_id != e.evidence_id@ by {
            if v.evidence[k].evidence_id == e.evidence_id@ {
                lemma_first_evidence_exists(v.evidence, e.evidence_id@, k);
            }
        }
        if ingest_new(v, verified, now_ms) is Ok {
            let i = choose|i: int| #[trigger] first_enabled_plan(v.plans, e.plan_id@, e.plan_epoch, i);
            let j = choose|j: int| #[trigger] first_probe(v.probes, e.plan_id@, e.plan_epoch, e.result.probe_id@, j);
            assert(v.plans[i].enabled);
            assert(v.probes[j].plan_id == e.plan_id@);
            lemma_ingest_new_records(v, verified, now_ms);
        }
        if exists|i: int| #[trigger] first_enabled_plan(v.plans, e.plan_id@, e.plan_epoch, i) {
            let i = choose|i: int| #[trigger] first_enabled_plan(v.plans, e.plan_id@, e.plan_epoch, i);
            assert(v.plans[i].enabled);
        }
    }
}

proof fn lemma_ingest_new_records(v: MonitorView, verified: VerifiedEvidence, now_ms: u64)
    requires
        ingest_new(v, verified, now_ms) is Ok,
    ensures
        ingest_new(v, verified, now_ms)->Ok_0.0.evidence == v.evidence.push(evidence_row(verified, now_ms)),
{
    reveal(ingest_new);
}

fn push_be64(out: &mut Vec<u8>, n: u64)
    ensures
        final(out)@ == old(out)@ + be64(n as int),
{
    let ghost start = out@;
    out.push(((n / 72057594037927936) % 256) as u8);
    out.push(((n / 281474976710656) % 256) as u8);
    out.push(((n / 1099511627776) % 256) as u8);
    out.push(((n / 4294967296) % 256) as u8);
    out.push(((n / 16777216) % 256) as u8);
    out.push(((n / 65536) % 256) as u8);
    out.push(((n / 256) % 256) as u8);
    out.push((n % 256) as u8);
    assert(out@ =~= start + be64(n as int));
}

fn signed_payload_digest(verified: &VerifiedEvidence) -> (r: String)
    ensures
        r@ == signed_digest(*verified),
{
    let ev = verified.envelope().payload.as_str().as_bytes();
    let asg = verified.assignment_envelope().payload.as_str().as_bytes();
    let mut bytes: Vec<u8> = Vec::new();
    push_be64(&mut bytes, ev.len() as u64);
    crate::json::extend_bytes(&mut bytes, ev);
    push_be64(&mut bytes, asg.len() as u64);
    crate::json::extend_bytes(&mut bytes, asg);
    assert(bytes@ =~= signed_payload_bytes(verified.spec_envelope().payload@, verified.spec_assignment_envelope().payload@));
    payload_digest(bytes.as_slice())
}

fn find_enabled_plan(plans: &Vec<PlanRecord>, id: &str, epoch: u64) -> (r: Option<usize>)
    ensures
        match r {
            Some(k) => first_enabled_plan(plan_rows(plans@), id@, epoch, k as int),
            None => !exists|k: int| #[trigger] first_enabled_plan(plan_rows(plans@), id@, epoch, k),
        },
{
    let ghost rows = plan_rows(plans@);
    let mut i: usize = 0;
    while i < plans.len()
        invariant
            i <= plans@.len(),
            rows == plan_rows(plans@),
            forall|m: int| 0 <= m < i ==> !((#[trigger] rows[m]).plan_id == id@ && rows[m].epoch == epoch && rows[m].enabled),
        decreases plans@.len() - i,
    {
        assert(rows[i as int] == plans@[i as int]@);
        if plans[i].enabled && plans[i].epoch == epoch && crate::text::str_eq(plans[i].plan_id.as_str(), id) {
            return Some(i);
        }
        i = i + 1;
    }
    None
}

fn find_probe(probes: &Vec<ProbeRecord>, id: &str, epoch: u64, probe_id: &str) -> (r: Option<usize>)
    ensures
        match r {
            Some(k) => first_probe(probe_rows(probes@), id@, epoch, probe_id@, k as int),
            None => !exists|k: int| #[trigger] first_probe(probe_rows(probes@), id@, epoch, probe_id@, k),
        },
{
    let ghost rows = probe_rows(probes@);
    let mut i: usize = 0;
    while i < probes.len()
        invariant
            i <= probes@.len(),
            rows == probe_rows(probes@),
            forall|m: int| 0 <= m < i ==> !((#[trigger] rows[m]).plan_id == id@ && rows[m].epoch == epoch
                && rows[m].probe.id == probe_id@),
        decreases probes@.len() - i,
    {
        assert(rows[i as int] == probes@[i as int]@);
        if probes[i].epoch == epoch && crate::text::str_eq(probes[i].plan_id.as_str(), id)
            && crate::text::str_eq(probes[i].probe.id.as_str(), probe_id) {
            return Some(i);
        }
        i = i + 1;
    }
    None
}

fn find_evidence(rows: &Vec<EvidenceRecord>, id: &str) -> (r: Option<usize>)
    ensures
        match r {
            Some(k) => first_evidence(evidence_rows(rows@), id@, k as int),
            None => !exists|k: int| #[trigger] first_evidence(evidence_rows(rows@), id@, k),
        },
{
    let ghost vs = evidence_rows(rows@);
    let mut i: usize = 0;
    while i < rows.len()
        invariant
            i <= rows@.len(),
            vs == evidence_rows(rows@),
            forall|m: int| 0 <= m < i ==> (#[trigger] vs[m]).evidence_id != id@,
        decreases rows@.len() - i,
    {
        assert(vs[i as int] == rows@[i as int]@);
        if crate::text::str_eq(rows[i].evidence_id.as_str(), id) {
            return Some(i);
        }
        i = i + 1;
    }
    None
}

fn opt_string_copy(o: &Option<String>) -> (r: Option<String>)
    ensures
        opt_view(r) == opt_view(*o),
{
    match o {
        Some(s) => Some(s.clone()),
        None => None,
    }
}

/// A copy of a probe row with another health state.
fn with_health(r: &ProbeRecord, health: HealthState) -> (out: ProbeRecord)
    ensures
        out@ == (ProbeRow { health: health@, ..r@ }),
{
    ProbeRecord {
        plan_id: r.plan_id.clone(),
        epoch: r.epoch,
        graph_version: r.graph_version,
        probe: r.probe.duplicate(),
        probe_digest: r.probe_digest.clone(),
        due_at_ms: r.due_at_ms,
        lease_token: opt_string_copy(&r.lease_token),
        lease_until_ms: r.lease_until_ms,
        attempts: r.attempts,
        lease_generation: r.lease_generation,
        health,
    }
}

/// The newest incidents first, at most `limit` of them.
pub open spec fn timeline_spec(incidents: Seq<IncidentView>, limit: usize) -> Seq<IncidentView> {
    let n = if incidents.len() < limit { incidents.len() as int } else { limit as int };
    Seq::new(n as nat, |i: int| incidents[incidents.len() - 1 - i])
}

/// Every probe's health after expiry at `now_ms`.
pub open spec fn reconciled(probes: Seq<ProbeRow>, now_ms: u64) -> Seq<ProbeRow> {
    probes.map_values(|q: ProbeRow| ProbeRow { health: expire_spec(q.health, now_ms), ..q })
}

/// How many of the first `n` probes change status on expiry.
pub open spec fn expiring_count(probes: Seq<ProbeRow>, now_ms: u64, n: int) -> nat
    decreases n,
{
    if n <= 0 {
        0
    } else {
        expiring_count(probes, now_ms, n - 1) + if expire_spec(probes[n - 1].health, now_ms).status
            != probes[n - 1].health.status { 1nat } else { 0nat }
    }
}

/// Incidents are kept a year; evidence thirty days unless an incident that
/// is kept still names it.
pub open spec fn kept_incidents(incidents: Seq<IncidentView>, now_ms: u64) -> Seq<IncidentView> {
    incidents.filter(|i: IncidentView| i.at_ms >= sat_sub(now_ms, INCIDENT_RETENTION_MS))
}

pub open spec fn referenced(incidents: Seq<IncidentView>, id: Seq<char>) -> bool {
    exists|k: int| 0 <= k < incidents.len() && (#[trigger] incidents[k]).evidence_id == id
}

pub open spec fn kept_evidence(rows: Seq<EvidenceRow>, incidents: Seq<IncidentView>, now_ms: u64) -> Seq<EvidenceRow> {
    rows.filter(|e: EvidenceRow| e.received_at_ms >= sat_sub(now_ms, EVIDENCE_RETENTION_MS) || referenced(incidents, e.evidence_id))
}

proof fn lemma_first_evidence_exists(rows: Seq<EvidenceRow>, id: Seq<char>, m: int)
    requires
        0 <= m < rows.len(),
        rows[m].evidence_id == id,
    ensures
        exists|k: int| #[trigger] first_evidence(rows, id, k),
    decreases m,
{
    if exists|x: int| 0 <= x < m && (#[trigger] rows[x]).evidence_id == id {
        let x = choose|x: int| 0 <= x < m && (#[trigger] rows[x]).evidence_id == id;
        lemma_first_evidence_exists(rows, id, x);
    } else {
        assert(first_evidence(rows, id, m));
    }
}

proof fn lemma_first_evidence_push(rows: Seq<EvidenceRow>, row: EvidenceRow)
    requires
        !exists|k: int| #[trigger] first_evidence(rows, row.evidence_id, k),
    ensures
        first_evidence(rows.push(row), row.evidence_id, rows.len() as int),
        forall|k: int| #[trigger] first_evidence(rows.push(row), row.evidence_id, k) ==> k == rows.len(),
{
    let w = rows.push(row);
    let n = rows.len() as int;
    assert forall|m: int| 0 <= m < n implies (#[trigger] w[m]).evidence_id != row.evidence_id by {
        assert(w[m] == rows[m]);
        if rows[m].evidence_id == row.evidence_id {
            lemma_first_evidence_exists(rows, row.evidence_id, m);
        }
    }
    assert(first_evidence(w, row.evidence_id, n));
    assert forall|k: int| #[trigger] first_evidence(w, row.evidence_id, k) implies k == n by {
        if k < n {
            assert(w[k].evidence_id != row.evidence_id);
        } else if k > n {
            assert(w[n].evidence_id == row.evidence_id);
        }
    }
}

/// Evidence ingested once is a duplicate when ingested again, at any time,
/// and the replay changes nothing: a health streak never advances twice.
pub proof fn lemma_ingest_replay_is_duplicate(v: MonitorView, verified: VerifiedEvidence, first_ms: u64, again_ms: u64)
    requires
        ingest_decision(v, verified, first_ms) is Ok,
    ensures
        ({
            let w = ingest_decision(v, verified, first_ms)->Ok_0.0;
            ingest_decision(w, verified, again_ms) == Ok::<(MonitorView, IngestOutcome), MonitorError>((w, IngestOutcome::Duplicate))
        }),
{
    let id = verified.spec_evidence().evidence_id@;
    let w = ingest_decision(v, verified, first_ms)->Ok_0.0;
    if exists|k: int| #[trigger] first_evidence(v.evidence, id, k) {
        let k = choose|k: int| #[trigger] first_evidence(v.evidence, id, k);
        assert(w == v);
        assert(first_evidence(w.evidence, id, k));
    } else {
        lemma_ingest_new_records(v, verified, first_ms);
        lemma_first_evidence_push(v.evidence, evidence_row(verified, first_ms));
        assert(w.evidence[v.evidence.len() as int].digest == signed_digest(verified));
    }
}

/// Law: activation only moves a plan forward. An activation that changes
/// the store is for an epoch and graph version above every recorded epoch
/// and graph version of that plan; a known epoch activates only with the
/// digest it was activated with; a plan without ID or probes never
/// activates.
pub proof fn lemma_activation_moves_forward(
    v: MonitorView,
    plan_id: Seq<char>,
    epoch: u64,
    graph_version: u64,
    revision: RevisionRefView,
    probes: Seq<ProbeSpecView>,
    plan_digest: Seq<char>,
    probe_digests: Seq<Seq<char>>,
    now_ms: u64,
)
    ensures
        activation(v, plan_id, epoch, graph_version, revision, probes, plan_digest, probe_digests, now_ms) matches Ok(w) ==> (w != v
            ==> forall|i: int| 0 <= i < v.plans.len() && (#[trigger] v.plans[i]).plan_id == plan_id ==> v.plans[i].epoch < epoch
            && v.plans[i].graph_version < graph_version),
        (exists|i: int| 0 <= i < v.plans.len() && (#[trigger] v.plans[i]).plan_id == plan_id && v.plans[i].epoch == epoch
            && forall|m: int| 0 <= m < v.plans.len() && (#[trigger] v.plans[m]).plan_id == plan_id && v.plans[m].epoch == epoch
            ==> v.plans[m].plan_digest != plan_digest) ==> activation(v, plan_id, epoch, graph_version, revision, probes, plan_digest,
            probe_digests, now_ms) is Err,
        plan_id.len() == 0 || probes.len() == 0 ==> activation(v, plan_id, epoch, graph_version, revision, probes, plan_digest,
            probe_digests, now_ms) is Err,
{
    if exists|i: int| 0 <= i < v.plans.len() && (#[trigger] v.plans[i]).plan_id == plan_id && v.plans[i].epoch == epoch {
        let i = choose|i: int| 0 <= i < v.plans.len() && (#[trigger] v.plans[i]).plan_id == plan_id && v.plans[i].epoch == epoch;
        lemma_first_plan_exists(v.plans, plan_id, epoch, i);
    }
}

proof fn lemma_first_plan_exists(plans: Seq<PlanRow>, id: Seq<char>, epoch: u64, m: int)
    requires
        0 <= m < plans.len(),
        plans[m].plan_id == id && plans[m].epoch == epoch,
    ensures
        exists|k: int| #[trigger] first_plan(plans, id, epoch, k),
    decreases m,
{
    if forall|j: int| 0 <= j < m ==> !((#[trigger] plans[j]).plan_id == id && plans[j].epoch == epoch) {
        assert(first_plan(plans, id, epoch, m));
    } else {
        let j = choose|j: int| 0 <= j < m && (#[trigger] plans[j]).plan_id == id && plans[j].epoch == epoch;
        lemma_first_plan_exists(plans, id, epoch, j);
    }
}

/// Activating a plan epoch again with the same digest changes nothing, and
/// after an activation that changed the store, the new epoch is the plan's
/// only enabled one.
pub proof fn lemma_activation_idempotent_and_exclusive(
    v: MonitorView,
    plan_id: Seq<char>,
    epoch: u64,
    graph_version: u64,
    revision: RevisionRefView,
    probes: Seq<ProbeSpecView>,
    plan_digest: Seq<char>,
    probe_digests: Seq<Seq<char>>,
    now_ms: u64,
    again_ms: u64,
)
    requires
        activation(v, plan_id, epoch, graph_version, revision, probes, plan_digest, probe_digests, now_ms) is Ok,
    ensures
        ({
            let w = activation(v, plan_id, epoch, graph_version, revision, probes, plan_digest, probe_digests, now_ms)->Ok_0;
            &&& activation(w, plan_id, epoch, graph_version, revision, probes, plan_digest, probe_digests, again_ms)
                == Ok::<MonitorView, MonitorError>(w)
            &&& w != v ==> forall|i: int| 0 <= i < w.plans.len() && (#[trigger] w.plans[i]).plan_id == plan_id && w.plans[i].enabled
                ==> i == w.plans.len() - 1 && w.plans[i].epoch == epoch && w.plans[i].graph_version == graph_version
        }),
{
    let w = activation(v, plan_id, epoch, graph_version, revision, probes, plan_digest, probe_digests, now_ms)->Ok_0;
    if exists|k: int| #[trigger] first_plan(v.plans, plan_id, epoch, k) {
        assert(w == v);
    } else {
        let n = v.plans.len() as int;
        assert forall|m: int| 0 <= m < n implies !((#[trigger] w.plans[m]).plan_id == plan_id && w.plans[m].epoch == epoch) by {
            assert(w.plans[m] == disable_plan(v.plans, plan_id)[m]);
            if v.plans[m].plan_id == plan_id && v.plans[m].epoch == epoch {
                let m0 = choose|m0: int| 0 <= m0 <= m && v.plans[m0].plan_id == plan_id && v.plans[m0].epoch == epoch
                    && forall|x: int| 0 <= x < m0 ==> !(v.plans[x].plan_id == plan_id && v.plans[x].epoch == epoch);
                assert(first_plan(v.plans, plan_id, epoch, m0));
            }
        }
        assert(first_plan(w.plans, plan_id, epoch, n));
        let k = choose|k: int| #[trigger] first_plan(w.plans, plan_id, epoch, k);
        if k < n {
            assert(!(w.plans[k].plan_id == plan_id && w.plans[k].epoch == epoch));
        } else if k > n {
            assert(w.plans[n].plan_id == plan_id && w.plans[n].epoch == epoch);
        }
        assert forall|i: int| 0 <= i < w.plans.len() && (#[trigger] w.plans[i]).plan_id == plan_id && w.plans[i].enabled
            implies i == w.plans.len() - 1 && w.plans[i].epoch == epoch && w.plans[i].graph_version == graph_version by {
            if i < n {
                assert(w.plans[i] == disable_plan(v.plans, plan_id)[i]);
            }
        }
    }
}

/// Expiry after an outage never closes an incident and never changes what
/// a probe watches.
pub proof fn lemma_reconcile_keeps_incidents(probes: Seq<ProbeRow>, now_ms: u64)
    ensures
        reconciled(probes, now_ms).len() == probes.len(),
        forall|k: int| 0 <= k < probes.len() ==> (#[trigger] reconciled(probes, now_ms)[k]).health.incident_open
            == probes[k].health.incident_open && reconciled(probes, now_ms)[k].probe == probes[k].probe,
{
}

/// Some epoch row of the plan with this epoch is enabled.
pub open spec fn plan_enabled(plans: Seq<PlanRow>, id: Seq<char>, epoch: u64) -> bool {
    exists|i: int| 0 <= i < plans.len() && (#[trigger] plans[i]).plan_id == id && plans[i].epoch == epoch && plans[i].enabled
}

/// A probe may run now: its plan epoch is enabled, it is due, and no live
/// lease holds it.
pub open spec fn runnable(v: MonitorView, q: ProbeRow, now_ms: u64) -> bool {
    &&& plan_enabled(v.plans, q.plan_id, q.epoch)
    &&& q.due_at_ms <= now_ms
    &&& match q.lease_until_ms {
        None => true,
        Some(t) => t <= now_ms,
    }
}

/// The probes as listing candidates, ordered by due time, plan ID, probe ID
/// and position.
pub open spec fn sched_cands(v: MonitorView, now_ms: u64) -> Seq<CandidateView> {
    Seq::new(
        v.probes.len(),
        |k: int|
            CandidateView {
                at_ms: v.probes[k].due_at_ms,
                id: vstd::utf8::encode_utf8(v.probes[k].plan_id),
                sub: vstd::utf8::encode_utf8(v.probes[k].probe.id),
                seq: k as u64,
                eligible: runnable(v, v.probes[k], now_ms),
            },
    )
}

pub open spec fn scheduled_of(q: ProbeRow) -> ScheduledView {
    ScheduledView { plan_id: q.plan_id, plan_epoch: q.epoch, graph_version: q.graph_version, probe: q.probe, due_at_ms: q.due_at_ms }
}

/// `r` lists the probes at `idx` as scheduled.
pub open spec fn lists_due(v: MonitorView, idx: Seq<usize>, r: Seq<ScheduledView>) -> bool {
    &&& r.len() == idx.len()
    &&& forall|i: int| 0 <= i < r.len() ==> #[trigger] r[i] == scheduled_of(v.probes[idx[i] as int])
}

pub open spec fn lease_token_text(worker: Seq<char>, generation: u64) -> Seq<char> {
    worker + seq![':'] + decimal_text(generation)
}

/// The largest count the store holds.
pub const COUNTER_LIMIT: u64 = 9_223_372_036_854_775_807;

/// A listed probe whose attempt or lease counter cannot grow.
pub open spec fn counters_full(v: MonitorView, idx: Seq<usize>) -> bool {
    exists|i: int| 0 <= i < idx.len() && ((#[trigger] v.probes[idx[i] as int]).attempts >= COUNTER_LIMIT
        || v.probes[idx[i] as int].lease_generation >= COUNTER_LIMIT)
}

pub open spec fn claimed_row(q: ProbeRow, until: u64, worker: Seq<char>) -> ProbeRow {
    ProbeRow {
        lease_until_ms: Some(until),
        attempts: (q.attempts + 1) as u64,
        lease_generation: (q.lease_generation + 1) as u64,
        lease_token: Some(lease_token_text(worker, (q.lease_generation + 1) as u64)),
        ..q
    }
}

/// The store after the probes at `idx` are leased.
pub open spec fn claimed_store(v: MonitorView, idx: Seq<usize>, until: u64, worker: Seq<char>) -> MonitorView {
    MonitorView {
        probes: Seq::new(
            v.probes.len(),
            |k: int| if idx.contains(k as usize) { claimed_row(v.probes[k], until, worker) } else { v.probes[k] },
        ),
        ..v
    }
}

/// `r` holds the leases of the probes at `idx`, as they were scheduled.
pub open spec fn lists_claims(v: MonitorView, idx: Seq<usize>, until: u64, worker: Seq<char>, r: Seq<ClaimedView>) -> bool {
    &&& r.len() == idx.len()
    &&& forall|i: int| 0 <= i < r.len() ==> #[trigger] r[i] == (ClaimedView {
        scheduled: scheduled_of(v.probes[idx[i] as int]),
        lease_token: lease_token_text(worker, (v.probes[idx[i] as int].lease_generation + 1) as u64),
        lease_until_ms: until,
        lease_generation: (v.probes[idx[i] as int].lease_generation + 1) as u64,
    })
}

/// Releasing a lease: only the live lease's exact holder, before it lapses,
/// reschedules the probe, no sooner than its interval.
pub open spec fn release_spec(v: MonitorView, c: ClaimedView, now_ms: u64, delay_ms: u64) -> (MonitorView, bool) {
    let id = c.scheduled.plan_id;
    let epoch = c.scheduled.plan_epoch;
    let probe_id = c.scheduled.probe.id;
    if exists|k: int| #[trigger] first_probe(v.probes, id, epoch, probe_id, k) {
        let k = choose|k: int| #[trigger] first_probe(v.probes, id, epoch, probe_id, k);
        let q = v.probes[k];
        if q.lease_token == Some(c.lease_token) && q.lease_until_ms == Some(c.lease_until_ms)
            && q.lease_generation == c.lease_generation && c.lease_until_ms > now_ms {
            let wait = if delay_ms > c.scheduled.probe.interval_ms { delay_ms } else { c.scheduled.probe.interval_ms };
            (
                MonitorView {
                    probes: v.probes.update(k, ProbeRow { due_at_ms: sat_add(now_ms, wait), lease_token: None, lease_until_ms: None, ..q }),
                    ..v
                },
                true,
            )
        } else {
            (v, false)
        }
    } else {
        (v, false)
    }
}

/// A leased probe is not runnable again until its lease lapses, so no two
/// workers hold it at once; and the holder of a lease that was since given
/// to another worker can no longer release it.
pub proof fn lemma_lease_is_exclusive(
    v: MonitorView,
    idx: Seq<usize>,
    until: u64,
    worker: Seq<char>,
    k: usize,
    t: u64,
    c: ClaimedView,
    delay_ms: u64,
)
    requires
        k < v.probes.len(),
        idx.contains(k),
        !counters_full(v, idx),
    ensures
        t < until ==> !runnable(claimed_store(v, idx, until, worker), claimed_store(v, idx, until, worker).probes[k as int], t),
        first_probe(v.probes, c.scheduled.plan_id, c.scheduled.plan_epoch, c.scheduled.probe.id, k as int)
            && c.lease_generation == v.probes[k as int].lease_generation
            ==> release_spec(claimed_store(v, idx, until, worker), c, t, delay_ms)
            == (claimed_store(v, idx, until, worker), false),
{
    let w = claimed_store(v, idx, until, worker);
    if first_probe(v.probes, c.scheduled.plan_id, c.scheduled.plan_epoch, c.scheduled.probe.id, k as int)
        && c.lease_generation == v.probes[k as int].lease_generation {
        assert forall|m: int| 0 <= m < k as int implies !((#[trigger] w.probes[m]).plan_id == c.scheduled.plan_id
            && w.probes[m].epoch == c.scheduled.plan_epoch && w.probes[m].probe.id == c.scheduled.probe.id) by {
            assert(!(v.probes[m].plan_id == c.scheduled.plan_id && v.probes[m].epoch == c.scheduled.plan_epoch
                && v.probes[m].probe.id == c.scheduled.probe.id));
        }
        assert(first_probe(w.probes, c.scheduled.plan_id, c.scheduled.plan_epoch, c.scheduled.probe.id, k as int));
        let k2 = choose|k2: int| #[trigger] first_probe(w.probes, c.scheduled.plan_id, c.scheduled.plan_epoch, c.scheduled.probe.id, k2);
        if k2 < k as int {
            assert(!(w.probes[k2].plan_id == c.scheduled.plan_id && w.probes[k2].epoch == c.scheduled.plan_epoch
                && w.probes[k2].probe.id == c.scheduled.probe.id));
        } else if k2 > k as int {
            assert(w.probes[k as int].plan_id == c.scheduled.plan_id);
        }
        assert(w.probes[k as int] == claimed_row(v.probes[k as int], until, worker));
        let i = choose|i: int| 0 <= i < idx.len() && idx[i] == k;
        assert(v.probes[idx[i] as int].lease_generation < COUNTER_LIMIT);
        assert(w.probes[k as int].lease_generation != c.lease_generation);
    }
}

fn plan_enabled_exec(plans: &Vec<PlanRecord>, id: &str, epoch: u64) -> (r: bool)
    ensures
        r == plan_enabled(plan_rows(plans@), id@, epoch),
{
    let ghost rows = plan_rows(plans@);
    let mut i: usize = 0;
    while i < plans.len()
        invariant
            i <= plans@.len(),
            rows == plan_rows(plans@),
            forall|m: int| 0 <= m < i ==> !((#[trigger] rows[m]).plan_id == id@ && rows[m].epoch == epoch && rows[m].enabled),
        decreases plans@.len() - i,
    {
        assert(rows[i as int] == plans@[i as int]@);
        if plans[i].enabled && plans[i].epoch == epoch && crate::text::str_eq(plans[i].plan_id.as_str(), id) {
            return true;
        }
        i = i + 1;
    }
    false
}

fn str_bytes(s: &str) -> (r: Vec<u8>)
    ensures
        r@ == vstd::utf8::encode_utf8(s@),
{
    let mut out: Vec<u8> = Vec::new();
    crate::json::extend_bytes(&mut out, s.as_bytes());
    assert(out@ =~= vstd::utf8::encode_utf8(s@));
    out
}

fn scheduled_from(q: &ProbeRecord) -> (r: ScheduledProbe)
    ensures
        r@ == scheduled_of(q@),
{
    ScheduledProbe {
        plan_id: q.plan_id.clone(),
        plan_epoch: q.epoch,
        graph_version: q.graph_version,
        probe: q.probe.duplicate(),
        due_at_ms: q.due_at_ms,
    }
}

fn incident_names(incidents: &Vec<IncidentEvent>, id: &String) -> (r: bool)
    ensures
        r == referenced(incidents@.map_values(|i: IncidentEvent| i@), id@),
{
    let ghost vs = incidents@.map_values(|i: IncidentEvent| i@);
    let mut k: usize = 0;
    while k < incidents.len()
        invariant
            k <= incidents@.len(),
            vs == incidents@.map_values(|i: IncidentEvent| i@),
            forall|m: int| 0 <= m < k ==> (#[trigger] vs[m]).evidence_id != id@,
        decreases incidents@.len() - k,
    {
        assert(vs[k as int] == incidents@[k as int]@);
        if incidents[k].evidence_id == *id {
            return true;
        }
        k = k + 1;
    }
    false
}

impl MonitorStore {
    pub fn new() -> (r: MonitorStore)
        ensures
            r@.plans.len() == 0 && r@.probes.len() == 0 && r@.evidence.len() == 0 && r@.incidents.len() == 0,
    {
        let r = MonitorStore { plans: Vec::new(), probes: Vec::new(), evidence: Vec::new(), incidents: Vec::new() };
        assert(r@.plans =~= Seq::<PlanRow>::empty());
        r
    }

    /// Activates a plan epoch with its revision, the digest of its wire
    /// encoding and each probe's digest. Activating the same epoch again is
    /// a no-op with the same digest; epochs and graph versions only move
    /// forward; a refusal changes nothing.
    pub fn activate(
        &mut self,
        plan: &AssurancePlan,
        plan_digest: &str,
        probe_digests: &Vec<String>,
        now_ms: u64,
    ) -> (r: Result<(), MonitorError>)
        ensures
            match activation(
                old(self)@,
                plan.id@,
                plan.epoch,
                plan.graph_version,
                plan.revision@,
                probe_views(plan.probes@),
                plan_digest@,
                probe_digests@.map_values(|d: String| d@),
                now_ms,
            ) {
                Ok(w) => r is Ok && final(self)@ == w,
                Err(e) => r == Err::<(), MonitorError>(e) && final(self)@ == old(self)@,
            },
    {
        let ghost v = self@;
        if crate::text::str_empty(&plan.id) || plan.probes.len() == 0 {
            return Err(MonitorError::Invalid);
        }
        match find_plan(&self.plans, plan.id.as_str(), plan.epoch) {
            Some(k) => {
                assert(v.plans[k as int] == self.plans@[k as int]@);
                if crate::text::str_eq(self.plans[k].plan_digest.as_str(), plan_digest) {
                    return Ok(());
                }
                return Err(MonitorError::Invalid);
            },
            None => {},
        }
        if not_forward(&self.plans, plan.id.as_str(), plan.epoch, plan.graph_version) {
            return Err(MonitorError::Invalid);
        }
        if probe_digests.len() != plan.probes.len() || !probes_ok(&plan.probes) {
            return Err(MonitorError::Invalid);
        }
        let ghost probes = probe_views(plan.probes@);
        let ghost digests = probe_digests@.map_values(|d: String| d@);
        let ghost target = activated(v, plan.id@, plan.epoch, plan.graph_version, plan.revision@, probes, plan_digest@,
            digests, now_ms);
        let mut i: usize = 0;
        while i < self.plans.len()
            invariant
                i <= self.plans@.len(),
                self.plans@.len() == v.plans.len(),
                self.probes@ == old(self).probes@,
                self.evidence@ == old(self).evidence@,
                self.incidents@ == old(self).incidents@,
                v == old(self)@,
                forall|m: int| 0 <= m < i ==> (#[trigger] self.plans@[m])@ == disable_plan(v.plans, plan.id@)[m],
                forall|m: int| i <= m < self.plans@.len() ==> (#[trigger] self.plans@[m])@ == v.plans[m],
            decreases self.plans@.len() - i,
        {
            if crate::text::str_eq(self.plans[i].plan_id.as_str(), plan.id.as_str()) {
                let r = &self.plans[i];
                let updated = PlanRecord {
                    plan_id: r.plan_id.clone(),
                    epoch: r.epoch,
                    graph_version: r.graph_version,
                    revision: r.revision.duplicate(),
                    plan_digest: r.plan_digest.clone(),
                    enabled: false,
                    activated_at_ms: r.activated_at_ms,
                };
                self.plans.set(i, updated);
            }
            i = i + 1;
        }
        let ghost disabled = self.plans@;
        self.plans.push(PlanRecord {
            plan_id: plan.id.clone(),
            epoch: plan.epoch,
            graph_version: plan.graph_version,
            revision: plan.revision.duplicate(),
            plan_digest: plan_digest.to_string(),
            enabled: true,
            activated_at_ms: now_ms,
        });
        let ghost pushed = self.plans@;
        let ghost base = self.probes@.len();
        let mut j: usize = 0;
        while j < plan.probes.len()
            invariant
                j <= plan.probes@.len(),
                probe_digests@.len() == plan.probes@.len(),
                base == v.probes.len(),
                probes == probe_views(plan.probes@),
                digests == probe_digests@.map_values(|d: String| d@),
                self.probes@.len() == base + j,
                self.plans@ == pushed,
                self.evidence@ == old(self).evidence@,
                self.incidents@ == old(self).incidents@,
                forall|m: int| 0 <= m < base ==> (#[trigger] self.probes@[m])@ == v.probes[m],
                forall|m: int| 0 <= m < j ==> (#[trigger] self.probes@[base + m])@ == new_probe_row(plan.id@, plan.epoch,
                    plan.graph_version, probes[m], digests[m], now_ms),
            decreases plan.probes@.len() - j,
        {
            let p = &plan.probes[j];
            let health = HealthState::new(plan.id.clone(), plan.epoch, plan.graph_version, p.id.clone());
            self.probes.push(ProbeRecord {
                plan_id: plan.id.clone(),
                epoch: plan.epoch,
                graph_version: plan.graph_version,
                probe: p.duplicate(),
                probe_digest: probe_digests[j].clone(),
                due_at_ms: now_ms,
                lease_token: None,
                lease_until_ms: None,
                attempts: 0,
                lease_generation: 0,
                health,
            });
            proof {
                assert(self.probes@[base + j]@ == new_probe_row(plan.id@, plan.epoch, plan.graph_version, probes[j as int],
                    digests[j as int], now_ms));
            }
            j = j + 1;
        }
        proof {
            assert forall|m: int| 0 <= m < self.plans@.len() implies #[trigger] plan_rows(self.plans@)[m] == target.plans[m] by {
                if m < v.plans.len() {
                    assert(pushed[m] == disabled[m]);
                    assert(disabled[m]@ == disable_plan(v.plans, plan.id@)[m]);
                }
            }
            assert(self@.plans =~= target.plans);
            assert forall|m: int| 0 <= m < self.probes@.len() implies #[trigger] probe_rows(self.probes@)[m] == target.probes[m] by {
                if m < v.probes.len() {
                    assert(self.probes@[m]@ == v.probes[m]);
                } else {
                    assert(self.probes@[v.probes.len() + (m - v.probes.len())]@ == new_probe_row(plan.id@, plan.epoch,
                        plan.graph_version, probes[m - v.probes.len()], digests[m - v.probes.len()], now_ms));
                }
            }
            assert(self@.probes =~= target.probes);
            assert(self@.evidence =~= target.evidence);
            assert(self@.incidents =~= target.incidents);
        }
        Ok(())
    }

    /// Stores immutable verified evidence and applies its health transition
    /// together; a duplicate never advances a health streak twice and any
    /// refusal changes nothing.
    pub fn ingest(&mut self, verified: &VerifiedEvidence, now_ms: u64) -> (r: Result<IngestOutcome, MonitorError>)
        ensures
            match ingest_decision(old(self)@, *verified, now_ms) {
                Ok((w, o)) => r == Ok::<IngestOutcome, MonitorError>(o) && final(self)@ == w,
                Err(x) => r == Err::<IngestOutcome, MonitorError>(x) && final(self)@ == old(self)@,
            },
    {
        reveal(ingest_new);
        let ghost v = self@;
        let e = verified.evidence();
        let digest = signed_payload_digest(verified);
        match find_evidence(&self.evidence, e.evidence_id.as_str()) {
            Some(k) => {
                assert(v.evidence[k as int] == self.evidence@[k as int]@);
                if crate::text::str_eq(self.evidence[k].digest.as_str(), digest.as_str()) {
                    return Ok(IngestOutcome::Duplicate);
                }
                return Err(MonitorError::ConflictingEvidenceId);
            },
            None => {},
        }
        let i = match find_enabled_plan(&self.plans, e.plan_id.as_str(), e.plan_epoch) {
            Some(i) => i,
            None => {
                return Err(MonitorError::StaleScope);
            },
        };
        let j = match find_probe(&self.probes, e.plan_id.as_str(), e.plan_epoch, e.result.probe_id.as_str()) {
            Some(j) => j,
            None => {
                return Err(MonitorError::StaleScope);
            },
        };
        assert(v.plans[i as int] == self.plans@[i as int]@);
        assert(v.probes[j as int] == self.probes@[j as int]@);
        let p = &self.plans[i];
        let q = &self.probes[j];
        if p.graph_version != e.graph_version || !p.revision.same(&e.revision) || !q.probe.device.same(&e.device)
            || !crate::text::str_eq(q.probe_digest.as_str(), e.probe_digest.as_str()) {
            return Err(MonitorError::StaleScope);
        }
        let mut state = q.health.duplicate();
        let t = match state.observe(verified, now_ms) {
            Ok(t) => t,
            Err(h) => {
                return Err(MonitorError::Health(h));
            },
        };
        let incident_state = state.duplicate();
        let updated = with_health(&self.probes[j], state);
        self.probes.set(j, updated);
        let evidence_envelope = verified.envelope().duplicate();
        let assignment_envelope = verified.assignment_envelope().duplicate();
        proof {
            lemma_same_envelope_view(evidence_envelope, verified.spec_envelope());
            lemma_same_envelope_view(assignment_envelope, verified.spec_assignment_envelope());
        }
        self.evidence.push(EvidenceRecord {
            evidence_id: e.evidence_id.clone(),
            digest,
            received_at_ms: now_ms,
            evidence_envelope,
            assignment_envelope,
        });
        if t == HealthTransition::Opened || t == HealthTransition::Recovered {
            self.incidents.push(IncidentEvent {
                evidence_id: e.evidence_id.clone(),
                transition: t,
                at_ms: now_ms,
                state: incident_state,
            });
        }
        proof {
            let w = ingested(v, j as int, incident_state@, t, *verified, now_ms);
            assert(self@.probes =~= w.probes);
            assert(self@.evidence =~= w.evidence);
            assert(self@.incidents =~= w.incidents);
            assert(self@.plans =~= w.plans);
        }
        Ok(IngestOutcome::Inserted(t))
    }
    /// The health state of a probe of a plan epoch.
    pub fn health(&self, plan_id: &str, epoch: u64, probe_id: &str) -> (r: Option<HealthState>)
        ensures
            match r {
                Some(s) => exists|k: int| #[trigger] first_probe(self@.probes, plan_id@, epoch, probe_id@, k)
                    && s@ == self@.probes[k].health,
                None => !exists|k: int| #[trigger] first_probe(self@.probes, plan_id@, epoch, probe_id@, k),
            },
    {
        match find_probe(&self.probes, plan_id, epoch, probe_id) {
            Some(k) => {
                assert(self@.probes[k as int] == self.probes@[k as int]@);
                Some(self.probes[k].health.duplicate())
            },
            None => None,
        }
    }

    /// The retained original signed envelopes of stored evidence, for
    /// cryptographic audit; never reconstructed from a typed payload.
    pub fn audit_evidence(&self, evidence_id: &str) -> (r: Result<Option<EvidenceAuditRecord>, MonitorError>)
        ensures
            match r {
                Ok(Some(a)) => exists|k: int| #[trigger] first_evidence(self@.evidence, evidence_id@, k)
                    && a.evidence_id@ == evidence_id@
                    && envelope_view(a.evidence_envelope) == self@.evidence[k].evidence_envelope
                    && envelope_view(a.assignment_envelope) == self@.evidence[k].assignment_envelope,
                Ok(None) => !exists|k: int| #[trigger] first_evidence(self@.evidence, evidence_id@, k),
                Err(_) => false,
            },
    {
        match find_evidence(&self.evidence, evidence_id) {
            Some(k) => {
                assert(self@.evidence[k as int] == self.evidence@[k as int]@);
                let row = &self.evidence[k];
                let evidence_envelope = row.evidence_envelope.duplicate();
                let assignment_envelope = row.assignment_envelope.duplicate();
                proof {
                    lemma_same_envelope_view(evidence_envelope, row.evidence_envelope);
                    lemma_same_envelope_view(assignment_envelope, row.assignment_envelope);
                }
                Ok(Some(EvidenceAuditRecord { evidence_id: evidence_id.to_string(), evidence_envelope, assignment_envelope }))
            },
            None => Ok(None),
        }
    }

    /// Incident openings and recoveries, newest first, at most `limit`.
    pub fn timeline(&self, limit: usize) -> (r: Result<Vec<IncidentEvent>, MonitorError>)
        ensures
            r matches Ok(list) && list@.map_values(|i: IncidentEvent| i@) == timeline_spec(self@.incidents, limit),
    {
        let n = self.incidents.len();
        let mut out: Vec<IncidentEvent> = Vec::new();
        let ghost want = timeline_spec(self@.incidents, limit);
        while out.len() < limit && out.len() < n
            invariant
                n == self.incidents@.len(),
                out@.len() <= want.len(),
                want == timeline_spec(self@.incidents, limit),
                forall|m: int| 0 <= m < out@.len() ==> (#[trigger] out@[m])@ == want[m],
            decreases n - out@.len(),
        {
            let k = n - 1 - out.len();
            let e = &self.incidents[k];
            assert(self@.incidents[k as int] == self.incidents@[k as int]@);
            out.push(IncidentEvent {
                evidence_id: e.evidence_id.clone(),
                transition: e.transition,
                at_ms: e.at_ms,
                state: e.state.duplicate(),
            });
        }
        assert(out@.map_values(|i: IncidentEvent| i@) =~= want);
        Ok(out)
    }

    /// After an outage, expiry makes stale health unknown without closing an
    /// incident; returns how many probes changed status.
    pub fn reconcile_expirations(&mut self, now_ms: u64) -> (r: Result<usize, MonitorError>)
        ensures
            final(self)@ == (MonitorView { probes: reconciled(old(self)@.probes, now_ms), ..old(self)@ }),
            r matches Ok(c) && c == expiring_count(old(self)@.probes, now_ms, old(self)@.probes.len() as int),
    {
        let ghost v = self@;
        let mut changed: usize = 0;
        let mut i: usize = 0;
        while i < self.probes.len()
            invariant
                i <= self.probes@.len(),
                self.probes@.len() == v.probes.len(),
                v == old(self)@,
                self.plans@ == old(self).plans@,
                self.evidence@ == old(self).evidence@,
                self.incidents@ == old(self).incidents@,
                changed == expiring_count(v.probes, now_ms, i as int),
                changed <= i,
                forall|m: int| 0 <= m < i ==> (#[trigger] self.probes@[m])@ == reconciled(v.probes, now_ms)[m],
                forall|m: int| i <= m < self.probes@.len() ==> (#[trigger] self.probes@[m])@ == v.probes[m],
            decreases self.probes@.len() - i,
        {
            assert(self.probes@[i as int]@ == v.probes[i as int]);
            let mut state = self.probes[i].health.duplicate();
            let was = state.status;
            state.expire(now_ms);
            if state.status != was {
                changed = changed + 1;
            }
            let updated = with_health(&self.probes[i], state);
            self.probes.set(i, updated);
            i = i + 1;
        }
        proof {
            assert(self@.probes =~= reconciled(v.probes, now_ms));
            assert(self@.plans =~= v.plans);
            assert(self@.evidence =~= v.evidence);
            assert(self@.incidents =~= v.incidents);
        }
        Ok(changed)
    }

    /// Drops incidents older than a year, then evidence older than thirty
    /// days that no kept incident names.
    pub fn purge_expired(&mut self, now_ms: u64) -> (r: Result<(), MonitorError>)
        ensures
            r is Ok,
            final(self)@ == (MonitorView {
                incidents: kept_incidents(old(self)@.incidents, now_ms),
                evidence: kept_evidence(old(self)@.evidence, kept_incidents(old(self)@.incidents, now_ms), now_ms),
                ..old(self)@
            }),
    {
        let ghost v = self@;
        let incident_floor = now_ms.saturating_sub(INCIDENT_RETENTION_MS);
        let evidence_floor = now_ms.saturating_sub(EVIDENCE_RETENTION_MS);
        let mut incidents: Vec<IncidentEvent> = Vec::new();
        let mut old_incidents: Vec<IncidentEvent> = Vec::new();
        std::mem::swap(&mut old_incidents, &mut self.incidents);
        let ghost src = old_incidents@.map_values(|i: IncidentEvent| i@);
        let mut i: usize = 0;
        while i < old_incidents.len()
            invariant
                i <= old_incidents@.len(),
                src == old_incidents@.map_values(|i: IncidentEvent| i@),
                src == v.incidents,
                incident_floor == sat_sub(now_ms, INCIDENT_RETENTION_MS),
                incidents@.map_values(|i: IncidentEvent| i@) == kept_incidents(src.subrange(0, i as int), now_ms),
            decreases old_incidents@.len() - i,
        {
            let e = &old_incidents[i];
            assert(src[i as int] == e@);
            assert(src.subrange(0, i + 1) == src.subrange(0, i as int).push(e@));
            if e.at_ms >= incident_floor {
                incidents.push(IncidentEvent {
                    evidence_id: e.evidence_id.clone(),
                    transition: e.transition,
                    at_ms: e.at_ms,
                    state: e.state.duplicate(),
                });
            }
            assert(incidents@.map_values(|i: IncidentEvent| i@) =~= kept_incidents(src.subrange(0, i + 1), now_ms)) by {
                broadcast use Seq::lemma_filter_push;
            }
            i = i + 1;
        }
        assert(src.subrange(0, src.len() as int) =~= src);
        let ghost kept = kept_incidents(v.incidents, now_ms);
        let mut evidence: Vec<EvidenceRecord> = Vec::new();
        let mut old_evidence: Vec<EvidenceRecord> = Vec::new();
        std::mem::swap(&mut old_evidence, &mut self.evidence);
        let ghost rows = evidence_rows(old_evidence@);
        let mut j: usize = 0;
        while j < old_evidence.len()
            invariant
                j <= old_evidence@.len(),
                rows == evidence_rows(old_evidence@),
                rows == v.evidence,
                evidence_floor == sat_sub(now_ms, EVIDENCE_RETENTION_MS),
                incidents@.map_values(|i: IncidentEvent| i@) == kept,
                evidence_rows(evidence@) == kept_evidence(rows.subrange(0, j as int), kept, now_ms),
            decreases old_evidence@.len() - j,
        {
            let row = &old_evidence[j];
            assert(rows[j as int] == row@);
            assert(rows.subrange(0, j + 1) == rows.subrange(0, j as int).push(row@));
            let named = incident_names(&incidents, &row.evidence_id);
            if row.received_at_ms >= evidence_floor || named {
                let evidence_envelope = row.evidence_envelope.duplicate();
                let assignment_envelope = row.assignment_envelope.duplicate();
                proof {
                    lemma_same_envelope_view(evidence_envelope, row.evidence_envelope);
                    lemma_same_envelope_view(assignment_envelope, row.assignment_envelope);
                }
                evidence.push(EvidenceRecord {
                    evidence_id: row.evidence_id.clone(),
                    digest: row.digest.clone(),
                    received_at_ms: row.received_at_ms,
                    evidence_envelope,
                    assignment_envelope,
                });
            }
            assert(evidence_rows(evidence@) =~= kept_evidence(rows.subrange(0, j + 1), kept, now_ms)) by {
                broadcast use Seq::lemma_filter_push;
            }
            j = j + 1;
        }
        assert(rows.subrange(0, rows.len() as int) =~= rows);
        self.incidents = incidents;
        self.evidence = evidence;
        proof {
            assert(self@.incidents =~= kept);
            assert(self@.evidence =~= kept_evidence(v.evidence, kept, now_ms));
            assert(self@.plans =~= v.plans);
            assert(self@.probes =~= v.probes);
        }
        Ok(())
    }
    /// The indices of the runnable probes in schedule order, at most `limit`.
    fn due_indices(&self, now_ms: u64, limit: usize) -> (r: Vec<usize>)
        ensures
            first_in_order(sched_cands(self@, now_ms), r@, limit),
    {
        let ghost v = self@;
        let ghost target = sched_cands(v, now_ms);
        let mut cs: Vec<crate::storage::Candidate> = Vec::new();
        let mut k: usize = 0;
        while k < self.probes.len()
            invariant
                k <= self.probes@.len(),
                v == self@,
                target == sched_cands(v, now_ms),
                target.len() == self.probes@.len(),
                cs@.len() == k,
                crate::storage::view_cands(cs@) == target.subrange(0, k as int),
            decreases self.probes@.len() - k,
        {
            let q = &self.probes[k];
            assert(v.probes[k as int] == q@);
            let enabled = plan_enabled_exec(&self.plans, q.plan_id.as_str(), q.epoch);
            let free = match q.lease_until_ms {
                None => true,
                Some(t) => t <= now_ms,
            };
            let eligible = enabled && q.due_at_ms <= now_ms && free;
            cs.push(crate::storage::Candidate {
                at_ms: q.due_at_ms,
                id: str_bytes(q.plan_id.as_str()),
                sub: str_bytes(q.probe.id.as_str()),
                seq: k as u64,
                eligible,
            });
            assert(crate::storage::view_cands(cs@) =~= target.subrange(0, k + 1));
            k = k + 1;
        }
        assert(target.subrange(0, self.probes@.len() as int) =~= target);
        proof {
            assert forall|i: int, j: int| 0 <= i < j < target.len() implies crate::storage::cand_key(#[trigger] target[i])
                != crate::storage::cand_key(#[trigger] target[j]) by {
                assert(target[i].seq == i as u64 && target[j].seq == j as u64);
            }
        }
        crate::storage::order_candidates(&cs, limit)
    }

    /// The runnable probes in schedule order (due time, plan ID, probe ID),
    /// at most `limit`.
    pub fn due(&self, now_ms: u64, limit: usize) -> (r: Result<Vec<ScheduledProbe>, MonitorError>)
        ensures
            r matches Ok(list) && exists|idx: Seq<usize>| #[trigger] first_in_order(sched_cands(self@, now_ms), idx, limit)
                && lists_due(self@, idx, list@.map_values(|p: ScheduledProbe| p@)),
    {
        let idx = self.due_indices(now_ms, limit);
        let ghost cands = sched_cands(self@, now_ms);
        let mut out: Vec<ScheduledProbe> = Vec::new();
        let mut i: usize = 0;
        while i < idx.len()
            invariant
                i <= idx@.len(),
                cands == sched_cands(self@, now_ms),
                first_in_order(cands, idx@, limit),
                out@.len() == i,
                forall|m: int| 0 <= m < i ==> (#[trigger] out@[m])@ == scheduled_of(self@.probes[idx@[m] as int]),
            decreases idx@.len() - i,
        {
            let k = idx[i];
            assert(idx@[i as int] < cands.len());
            assert(self@.probes[k as int] == self.probes@[k as int]@);
            out.push(scheduled_from(&self.probes[k]));
            i = i + 1;
        }
        assert(lists_due(self@, idx@, out@.map_values(|p: ScheduledProbe| p@)));
        Ok(out)
    }

    /// Leases every runnable probe in schedule order, at most `limit`, to
    /// `worker` until `lease_ms` from now. A positive limit and lease and a
    /// worker name of 1 to 256 bytes are required; a probe whose counters
    /// cannot grow refuses the whole claim. Refusals change nothing.
    pub fn claim_due(&mut self, now_ms: u64, limit: usize, lease_ms: u64, worker: &str)
        -> (r: Result<Vec<ClaimedProbe>, MonitorError>)
        ensures
            limit == 0 || lease_ms == 0 || worker@.len() == 0 || byte_len(worker@) > 256 ==> r == Err::<Vec<ClaimedProbe>, MonitorError>(MonitorError::Invalid)
                && final(self)@ == old(self)@,
            !(limit == 0 || lease_ms == 0 || worker@.len() == 0 || byte_len(worker@) > 256) ==> exists|idx: Seq<usize>|
                #[trigger] first_in_order(sched_cands(old(self)@, now_ms), idx, limit) && if counters_full(old(self)@, idx) {
                    r == Err::<Vec<ClaimedProbe>, MonitorError>(MonitorError::Invalid) && final(self)@ == old(self)@
                } else {
                    r matches Ok(list) && final(self)@ == claimed_store(old(self)@, idx, sat_add(now_ms, lease_ms), worker@)
                        && lists_claims(old(self)@, idx, sat_add(now_ms, lease_ms), worker@, list@.map_values(|c: ClaimedProbe| c@))
                },
    {
        let worker_bytes = worker.as_bytes().len();
        if limit == 0 || lease_ms == 0 || worker.unicode_len() == 0 || worker_bytes > 256 {
            return Err(MonitorError::Invalid);
        }
        let ghost v = self@;
        let idx = self.due_indices(now_ms, limit);
        let ghost cands = sched_cands(v, now_ms);
        let mut i: usize = 0;
        while i < idx.len()
            invariant
                i <= idx@.len(),
                v == self@,
                cands == sched_cands(v, now_ms),
                first_in_order(cands, idx@, limit),
                forall|m: int| 0 <= m < i ==> (#[trigger] v.probes[idx@[m] as int]).attempts < COUNTER_LIMIT
                    && v.probes[idx@[m] as int].lease_generation < COUNTER_LIMIT,
            decreases idx@.len() - i,
        {
            let k = idx[i];
            assert(idx@[i as int] < cands.len());
            assert(v.probes[k as int] == self.probes@[k as int]@);
            if self.probes[k].attempts >= COUNTER_LIMIT || self.probes[k].lease_generation >= COUNTER_LIMIT {
                assert(v.probes[idx@[i as int] as int].attempts >= COUNTER_LIMIT
                    || v.probes[idx@[i as int] as int].lease_generation >= COUNTER_LIMIT);
                return Err(MonitorError::Invalid);
            }
            i = i + 1;
        }
        let until = now_ms.saturating_add(lease_ms);
        let mut claims: Vec<ClaimedProbe> = Vec::new();
        let mut i: usize = 0;
        while i < idx.len()
            invariant
                i <= idx@.len(),
                cands == sched_cands(v, now_ms),
                first_in_order(cands, idx@, limit),
                !counters_full(v, idx@),
                until == sat_add(now_ms, lease_ms),
                self.plans@ == old(self).plans@,
                self.evidence@ == old(self).evidence@,
                self.incidents@ == old(self).incidents@,
                self.probes@.len() == v.probes.len(),
                claims@.len() == i,
                forall|k: int| 0 <= k < v.probes.len() ==> (#[trigger] self.probes@[k])@ == if idx@.subrange(0, i as int).contains(k as usize) {
                    claimed_row(v.probes[k], until, worker@)
                } else {
                    v.probes[k]
                },
                forall|m: int| 0 <= m < i ==> (#[trigger] claims@[m])@ == (ClaimedView {
                    scheduled: scheduled_of(v.probes[idx@[m] as int]),
                    lease_token: lease_token_text(worker@, (v.probes[idx@[m] as int].lease_generation + 1) as u64),
                    lease_until_ms: until,
                    lease_generation: (v.probes[idx@[m] as int].lease_generation + 1) as u64,
                }),
            decreases idx@.len() - i,
        {
            let k = idx[i];
            assert(idx@[i as int] < cands.len());
            proof {
                if idx@.subrange(0, i as int).contains(k) {
                    let m = choose|m: int| 0 <= m < i && idx@.subrange(0, i as int)[m] == k;
                    assert(idx@[m] == idx@[i as int]);
                    crate::storage::lemma_key_order(crate::storage::cand_key(cands[k as int]), crate::storage::cand_key(cands[k as int]),
                        crate::storage::cand_key(cands[k as int]));
                }
                assert(v.probes[idx@[i as int] as int].attempts < COUNTER_LIMIT);
            }
            assert(self.probes@[k as int]@ == v.probes[k as int]);
            let q = &self.probes[k];
            let scheduled = scheduled_from(q);
            let generation = q.lease_generation + 1;
            let token = crate::protocol::concat_str(crate::protocol::concat_str(worker, ":").as_str(),
                crate::adapters::decimal_string(generation).as_str());
            proof {
                reveal_strlit(":");
            }
            let updated = ProbeRecord {
                plan_id: q.plan_id.clone(),
                epoch: q.epoch,
                graph_version: q.graph_version,
                probe: q.probe.duplicate(),
                probe_digest: q.probe_digest.clone(),
                due_at_ms: q.due_at_ms,
                lease_token: Some(token.clone()),
                lease_until_ms: Some(until),
                attempts: q.attempts + 1,
                lease_generation: generation,
                health: q.health.duplicate(),
            };
            let ghost probes_before = self.probes@;
            let probe_count = self.probes.len();
            self.probes.set(k, updated);
            claims.push(ClaimedProbe { scheduled, lease_token: token, lease_until_ms: until, lease_generation: generation });
            proof {
                let before = idx@.subrange(0, i as int);
                let after = idx@.subrange(0, i + 1);
                assert(after =~= before.push(k));
                assert forall|j: usize| after.contains(j) <==> (before.contains(j) || j == k) by {
                    if after.contains(j) {
                        let m = choose|m: int| 0 <= m < after.len() && after[m] == j;
                        if m < i {
                            assert(before[m] == j);
                        }
                    }
                    if before.contains(j) {
                        let m = choose|m: int| 0 <= m < before.len() && before[m] == j;
                        assert(after[m] == j);
                    }
                    if j == k {
                        assert(after[i as int] == k);
                    }
                }
                assert(token@ =~= lease_token_text(worker@, generation));
                assert(scheduled@ == scheduled_of(v.probes[k as int]));
                assert(self.probes@[k as int]@ == claimed_row(v.probes[k as int], until, worker@));
                assert forall|j: int| 0 <= j < v.probes.len() implies (#[trigger] self.probes@[j])@ == if after.contains(j as usize) {
                    claimed_row(v.probes[j], until, worker@)
                } else {
                    v.probes[j]
                } by {
                    if j != k as int {
                        assert(self.probes@[j] == probes_before[j]);
                        let ju = j as usize;
                        assert(j < probe_count);
                        assert(ju as int == j);
                        assert(ju != k);
                        assert(after.contains(ju) <==> (before.contains(ju) || ju == k));
                    } else {
                        assert(after.contains(k));
                    }
                }
            }
            i = i + 1;
        }
        proof {
            assert(idx@.subrange(0, idx@.len() as int) =~= idx@);
            let w = claimed_store(v, idx@, until, worker@);
            assert(self@.probes =~= w.probes);
            assert(self@.plans =~= w.plans);
            assert(self@.evidence =~= w.evidence);
            assert(self@.incidents =~= w.incidents);
            assert(lists_claims(v, idx@, until, worker@, claims@.map_values(|c: ClaimedProbe| c@)));
        }
        Ok(claims)
    }

    /// Ends a live lease and schedules the probe's next run an interval
    /// from now; false when the lease was lost or lapsed.
    pub fn finish(&mut self, claim: &ClaimedProbe, now_ms: u64) -> (r: Result<bool, MonitorError>)
        ensures
            r == Ok::<bool, MonitorError>(release_spec(old(self)@, claim@, now_ms, 0).1),
            final(self)@ == release_spec(old(self)@, claim@, now_ms, 0).0,
    {
        self.release(claim, now_ms, 0)
    }

    /// Ends a live lease and schedules a retry after `delay_ms`, no sooner
    /// than the probe's interval; false when the lease was lost or lapsed.
    pub fn retry(&mut self, claim: &ClaimedProbe, now_ms: u64, delay_ms: u64) -> (r: Result<bool, MonitorError>)
        ensures
            r == Ok::<bool, MonitorError>(release_spec(old(self)@, claim@, now_ms, delay_ms).1),
            final(self)@ == release_spec(old(self)@, claim@, now_ms, delay_ms).0,
    {
        self.release(claim, now_ms, delay_ms)
    }

    fn release(&mut self, claim: &ClaimedProbe, now_ms: u64, delay_ms: u64) -> (r: Result<bool, MonitorError>)
        ensures
            r == Ok::<bool, MonitorError>(release_spec(old(self)@, claim@, now_ms, delay_ms).1),
            final(self)@ == release_spec(old(self)@, claim@, now_ms, delay_ms).0,
    {
        let ghost v = self@;
        let s = &claim.scheduled;
        let k = match find_probe(&self.probes, s.plan_id.as_str(), s.plan_epoch, s.probe.id.as_str()) {
            Some(k) => k,
            None => {
                return Ok(false);
            },
        };
        assert(v.probes[k as int] == self.probes@[k as int]@);
        let q = &self.probes[k];
        let token_matches = match &q.lease_token {
            Some(t) => *t == claim.lease_token,
            None => false,
        };
        if !(token_matches && q.lease_until_ms == Some(claim.lease_until_ms) && q.lease_generation == claim.lease_generation
            && claim.lease_until_ms > now_ms) {
            return Ok(false);
        }
        let wait = if delay_ms > s.probe.interval_ms { delay_ms } else { s.probe.interval_ms };
        let updated = ProbeRecord {
            plan_id: q.plan_id.clone(),
            epoch: q.epoch,
            graph_version: q.graph_version,
            probe: q.probe.duplicate(),
            probe_digest: q.probe_digest.clone(),
            due_at_ms: now_ms.saturating_add(wait),
            lease_token: None,
            lease_until_ms: None,
            attempts: q.attempts,
            lease_generation: q.lease_generation,
            health: q.health.duplicate(),
        };
        self.probes.set(k, updated);
        proof {
            let w = release_spec(v, claim@, now_ms, delay_ms).0;
            assert(self@.probes =~= w.probes);
            assert(self@.plans =~= w.plans);
            assert(self@.evidence =~= w.evidence);
            assert(self@.incidents =~= w.incidents);
        }
        Ok(true)
    }
}

} // verus!

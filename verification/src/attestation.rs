//! Binding of signed assignments and evidence: a signature is verified
//! first, then the exact parsed statement is bound to the locally authorized
//! scope. Freshness is judged separately, for health.
use crate::assurance::{Outcome, ProbeSpec, ProbeSpecView};
use crate::check::{valid_probe, validate_probe};
use crate::evidence::{
    revision_subject, revision_subject_spec, subjects_eq, view_subjects, Statement, WitnessAssignment, WitnessEvidence,
    STATEMENT_TYPE, WITNESS_ASSIGNMENT_TYPE, WITNESS_EVIDENCE_TYPE,
};
use crate::identity::{
    identity_text, parse_identity_spec, same_envelope, verify, verify_result, AgentIdentity, AgentIdentityView, AuthenticatedPayload,
    DsseEnvelope, IdentityError, TrustedKey,
};
use crate::net::IpAddr;
use crate::protocol::{AgentRole, DeviceBinding, RevisionRef, PROTOCOL_VERSION};
use crate::state::{sat_add, sat_mul, sat_sub, saturating_mul_u64, Completeness};
use crate::text::{byte_len, str_eq, str_len};
use vstd::prelude::*;

verus! {

#[derive(Debug, Clone, PartialEq, Eq)]
pub enum EvidenceError {
    Identity(IdentityError),
    /// The statement bytes are not valid JSON of the expected shape.
    Json(String),
    /// The statement does not match the authorized binding named here.
    Binding(&'static str),
}

/// Read from the runtime's own authenticated configuration and current
/// fencing record, never copied from an incoming assignment.
pub struct AssignmentScope<'a> {
    pub controller: &'a AgentIdentity,
    pub witness: &'a AgentIdentity,
    pub device: &'a DeviceBinding,
    pub revision: &'a RevisionRef,
    pub plan_id: &'a str,
    pub plan_epoch: u64,
    pub graph_version: u64,
    pub location: &'a str,
    pub bind_addresses: &'a [IpAddr],
}

/// An assignment whose signature and binding were verified, with the
/// digest of each assigned probe's wire encoding.
pub struct VerifiedAssignment {
    assignment: WitnessAssignment,
    envelope: DsseEnvelope,
    probe_digests: Vec<String>,
}

impl VerifiedAssignment {
    pub closed spec fn spec_assignment(&self) -> WitnessAssignment {
        self.assignment
    }

    pub closed spec fn spec_probe_digests(&self) -> Seq<Seq<char>> {
        self.probe_digests@.map_values(|d: String| d@)
    }

    pub fn assignment(&self) -> (r: &WitnessAssignment)
        ensures
            *r == self.spec_assignment(),
    {
        &self.assignment
    }

    pub closed spec fn spec_envelope(&self) -> DsseEnvelope {
        self.envelope
    }

    pub fn envelope(&self) -> (r: &DsseEnvelope)
        ensures
            *r == self.spec_envelope(),
    {
        &self.envelope
    }
}

/// The assignment's statement header, scope and validity interval are
/// those authorized locally.
pub open spec fn assignment_bound(st: Statement<WitnessAssignment>, scope: AssignmentScope, now_ms: u64) -> bool {
    let a = st.predicate;
    &&& st.statement_type@ == STATEMENT_TYPE@
    &&& st.predicate_type@ == WITNESS_ASSIGNMENT_TYPE@
    &&& view_subjects(st.subject@) == revision_subject_spec(scope.revision@)
    &&& a.version == PROTOCOL_VERSION
    &&& a.assignment_id@.len() > 0
    &&& byte_len(a.assignment_id@) <= 256
    &&& a.issuer@ == identity_text(scope.controller@)
    &&& scope.witness@.role == AgentRole::Witness
    &&& a.recipient@ == identity_text(scope.witness@)
    &&& a.device@ == scope.device@
    &&& a.revision@ == scope.revision@
    &&& a.plan_id@ == scope.plan_id@
    &&& a.plan_epoch == scope.plan_epoch
    &&& a.graph_version == scope.graph_version
    &&& a.issued_at_ms <= now_ms
    &&& now_ms < a.expires_at_ms
    &&& sat_sub(a.expires_at_ms, a.issued_at_ms) <= 86_400_000
    &&& a.probes@.len() > 0
    &&& a.probes@.len() <= 1024
}

/// Assigned probe `i` is uniquely named, on the scope's device, sourced at
/// this witness and location from an allowed address, and valid.
pub open spec fn assigned_probe_ok(a: WitnessAssignment, scope: AssignmentScope, i: int) -> bool {
    let p = a.probes@[i];
    &&& forall|j: int| 0 <= j < i ==> (#[trigger] a.probes@[j]).id@ != p.id@
    &&& p.device@ == scope.device@
    &&& p.source.witness_id@ == a.recipient@
    &&& p.source.location@ == scope.location@
    &&& scope.bind_addresses@.contains(p.source.bind_address)
    &&& valid_probe(p@)
}

pub open spec fn assignment_valid(st: Statement<WitnessAssignment>, scope: AssignmentScope, now_ms: u64) -> bool {
    assignment_bound(st, scope, now_ms) && forall|i: int| 0 <= i < st.predicate.probes@.len() ==> #[trigger] assigned_probe_ok(st.predicate, scope, i)
}

/// The verification of an envelope, its identity errors carried as
/// evidence errors.
pub open spec fn signature_checked(
    env: DsseEnvelope,
    keys: Seq<TrustedKey>,
    expected: AgentIdentityView,
    role: AgentRole,
    now_ms: u64,
    r: Result<AuthenticatedPayload, EvidenceError>,
) -> bool {
    match r {
        Ok(p) => verify_result(env, keys, expected, role, now_ms, Ok(p)),
        Err(EvidenceError::Identity(e)) => verify_result(env, keys, expected, role, now_ms, Err(e)),
        Err(_) => false,
    }
}

/// Checks the signature of an assignment envelope by the scope's controller.
pub fn verify_assignment_signature(envelope: &DsseEnvelope, keys: &[TrustedKey], scope: &AssignmentScope, now_ms: u64)
    -> (r: Result<AuthenticatedPayload, EvidenceError>)
    ensures
        signature_checked(*envelope, keys@, scope.controller@, AgentRole::Controller, now_ms, r),
{
    match verify(envelope, keys, scope.controller, AgentRole::Controller, now_ms) {
        Ok(p) => Ok(p),
        Err(e) => Err(EvidenceError::Identity(e)),
    }
}

fn bind_addresses_contain(addrs: &[IpAddr], a: IpAddr) -> (r: bool)
    ensures
        r == addrs@.contains(a),
{
    let mut i: usize = 0;
    while i < addrs.len()
        invariant
            i <= addrs@.len(),
            forall|j: int| 0 <= j < i ==> addrs@[j] != a,
        decreases addrs@.len() - i,
    {
        if addrs[i] == a {
            assert(addrs@[i as int] == a);
            return true;
        }
        i = i + 1;
    }
    false
}

/// Binds a parsed assignment statement to the locally authorized scope.
/// `probe_digests` are the digests of the assigned probes' wire encodings,
/// in assignment order; they are the caller's and are not checked against
/// the probes.
pub fn bind_assignment(
    statement: Statement<WitnessAssignment>,
    envelope: &DsseEnvelope,
    scope: &AssignmentScope,
    now_ms: u64,
    probe_digests: Vec<String>,
) -> (r: Result<VerifiedAssignment, EvidenceError>)
    requires
        probe_digests@.len() == statement.predicate.probes@.len(),
    ensures
        r is Ok <==> assignment_valid(statement, *scope, now_ms),
        r matches Ok(v) ==> v.spec_assignment() == statement.predicate
            && v.spec_probe_digests() == probe_digests@.map_values(|d: String| d@)
            && same_envelope(v.spec_envelope(), *envelope),
        r matches Err(e) ==> e matches EvidenceError::Binding(_),
{
    let a = &statement.predicate;
    let controller = scope.controller.to_string();
    let witness = scope.witness.to_string();
    let subject = revision_subject(scope.revision);
    let header_ok = str_eq(statement.statement_type.as_str(), STATEMENT_TYPE)
        && str_eq(statement.predicate_type.as_str(), WITNESS_ASSIGNMENT_TYPE) && subjects_eq(&statement.subject, &subject)
        && a.version == PROTOCOL_VERSION && !crate::text::str_empty(&a.assignment_id) && str_len(&a.assignment_id) <= 256
        && a.issuer == controller && scope.witness.role() == AgentRole::Witness && a.recipient == witness
        && a.device.same(scope.device) && a.revision.same(scope.revision) && str_eq(a.plan_id.as_str(), scope.plan_id)
        && a.plan_epoch == scope.plan_epoch && a.graph_version == scope.graph_version && a.issued_at_ms <= now_ms
        && now_ms < a.expires_at_ms && a.expires_at_ms.saturating_sub(a.issued_at_ms) <= 86_400_000 && a.probes.len() > 0
        && a.probes.len() <= 1024;
    if !header_ok {
        return Err(EvidenceError::Binding("assignment scope, revision, recipient or validity"));
    }
    let mut i: usize = 0;
    while i < a.probes.len()
        invariant
            a == &statement.predicate,
            assignment_bound(statement, *scope, now_ms),
            i <= a.probes@.len(),
            forall|j: int| 0 <= j < i ==> #[trigger] assigned_probe_ok(*a, *scope, j),
        decreases a.probes@.len() - i,
    {
        let p = &a.probes[i];
        let mut j: usize = 0;
        while j < i
            invariant
                a == &statement.predicate,
                i < a.probes@.len(),
                p == &a.probes@[i as int],
                j <= i,
                forall|k: int| 0 <= k < j ==> (#[trigger] a.probes@[k]).id@ != p.id@,
            decreases i - j,
        {
            if a.probes[j].id == p.id {
                assert(!assigned_probe_ok(*a, *scope, i as int)) by {
                    assert(a.probes@[j as int].id@ == p.id@);
                }
                return Err(EvidenceError::Binding("probe source, device or limits"));
            }
            j = j + 1;
        }
        if !p.device.same(scope.device) || p.source.witness_id != a.recipient
            || !str_eq(p.source.location.as_str(), scope.location)
            || !bind_addresses_contain(scope.bind_addresses, p.source.bind_address) || validate_probe(p).is_err() {
            assert(!assigned_probe_ok(*a, *scope, i as int));
            return Err(EvidenceError::Binding("probe source, device or limits"));
        }
        i = i + 1;
    }
    Ok(VerifiedAssignment { assignment: statement.predicate, envelope: envelope.duplicate(), probe_digests })
}

/// Evidence whose signature and binding to a verified assignment were
/// checked, with the assigned probe's interval and timeout.
pub struct VerifiedEvidence {
    evidence: WitnessEvidence,
    envelope: DsseEnvelope,
    assignment_envelope: DsseEnvelope,
    interval_ms: u64,
    timeout_ms: u64,
    probe: ProbeSpec,
    probe_digest: String,
}

/// What a piece of evidence says at `now_ms`: unavailable when incomplete,
/// from the future or older than three intervals plus a timeout; a success
/// that took longer than the timeout is a timeout.
pub open spec fn outcome_at_spec(e: WitnessEvidence, interval_ms: u64, timeout_ms: u64, now_ms: u64) -> Outcome {
    let r = e.result;
    if !(e.completeness is Complete) || r.finished_at_ms > now_ms
        || sat_sub(now_ms, r.finished_at_ms) > sat_add(sat_mul(interval_ms, 3), timeout_ms) {
        Outcome::Unavailable
    } else if r.outcome == Outcome::Success && sat_sub(r.finished_at_ms, r.started_at_ms) > timeout_ms {
        Outcome::Timeout
    } else {
        r.outcome
    }
}

impl VerifiedEvidence {
    pub closed spec fn spec_evidence(&self) -> WitnessEvidence {
        self.evidence
    }

    pub closed spec fn spec_interval_ms(&self) -> u64 {
        self.interval_ms
    }

    pub closed spec fn spec_timeout_ms(&self) -> u64 {
        self.timeout_ms
    }

    pub closed spec fn spec_probe(&self) -> ProbeSpecView {
        self.probe@
    }

    pub closed spec fn spec_probe_digest(&self) -> Seq<char> {
        self.probe_digest@
    }

    pub fn evidence(&self) -> (r: &WitnessEvidence)
        ensures
            *r == self.spec_evidence(),
    {
        &self.evidence
    }

    pub closed spec fn spec_envelope(&self) -> DsseEnvelope {
        self.envelope
    }

    pub closed spec fn spec_assignment_envelope(&self) -> DsseEnvelope {
        self.assignment_envelope
    }

    /// The signed bytes and signatures, kept for audit.
    pub fn envelope(&self) -> (r: &DsseEnvelope)
        ensures
            *r == self.spec_envelope(),
    {
        &self.envelope
    }

    pub fn assignment_envelope(&self) -> (r: &DsseEnvelope)
        ensures
            *r == self.spec_assignment_envelope(),
    {
        &self.assignment_envelope
    }

    pub fn interval_ms(&self) -> (r: u64)
        ensures
            r == self.spec_interval_ms(),
    {
        self.interval_ms
    }

    pub fn timeout_ms(&self) -> (r: u64)
        ensures
            r == self.spec_timeout_ms(),
    {
        self.timeout_ms
    }

    /// The probe this evidence answers, exactly as assigned.
    pub fn assigned_probe(&self) -> (r: &ProbeSpec)
        ensures
            r@ == self.spec_probe(),
    {
        &self.probe
    }

    /// The digest of the assigned probe's wire encoding.
    pub fn assigned_probe_digest(&self) -> (r: &str)
        ensures
            r@ == self.spec_probe_digest(),
    {
        self.probe_digest.as_str()
    }

    pub fn outcome_at(&self, now_ms: u64) -> (r: Outcome)
        ensures
            r == outcome_at_spec(self.spec_evidence(), self.spec_interval_ms(), self.spec_timeout_ms(), now_ms),
    {
        let r = &self.evidence.result;
        let complete = match self.evidence.completeness {
            Completeness::Complete => true,
            _ => false,
        };
        if !complete || r.finished_at_ms > now_ms
            || now_ms.saturating_sub(r.finished_at_ms) > saturating_mul_u64(self.interval_ms, 3).saturating_add(self.timeout_ms) {
            Outcome::Unavailable
        } else if r.outcome == Outcome::Success && r.finished_at_ms.saturating_sub(r.started_at_ms) > self.timeout_ms {
            Outcome::Timeout
        } else {
            r.outcome
        }
    }
}

/// The evidence statement's header, scope and timestamps agree with its assignment.
pub open spec fn evidence_bound(st: Statement<WitnessEvidence>, a: WitnessAssignment, now_ms: u64) -> bool {
    let e = st.predicate;
    &&& st.statement_type@ == STATEMENT_TYPE@
    &&& st.predicate_type@ == WITNESS_EVIDENCE_TYPE@
    &&& view_subjects(st.subject@) == revision_subject_spec(a.revision@)
    &&& e.version == PROTOCOL_VERSION
    &&& e.evidence_id@.len() > 0
    &&& byte_len(e.evidence_id@) <= 256
    &&& e.assignment_id@ == a.assignment_id@
    &&& e.plan_id@ == a.plan_id@
    &&& e.plan_epoch == a.plan_epoch
    &&& e.graph_version == a.graph_version
    &&& e.revision@ == a.revision@
    &&& e.device@ == a.device@
    &&& e.witness@ == a.recipient@
    &&& e.result.started_at_ms >= a.issued_at_ms
    &&& e.result.started_at_ms <= e.result.finished_at_ms
    &&& e.result.finished_at_ms <= now_ms
    &&& e.result.finished_at_ms < a.expires_at_ms
    &&& byte_len(e.result.detail@) <= 4096
}

/// The first assigned probe named by the evidence.
pub open spec fn first_probe(a: WitnessAssignment, id: Seq<char>, k: int) -> bool {
    0 <= k < a.probes@.len() && a.probes@[k].id@ == id && forall|j: int| 0 <= j < k ==> (#[trigger] a.probes@[j]).id@ != id
}

/// Checks the signature of an evidence envelope by the assignment's recipient witness.
pub fn verify_evidence_signature(envelope: &DsseEnvelope, keys: &[TrustedKey], assignment: &VerifiedAssignment, now_ms: u64)
    -> (r: Result<AuthenticatedPayload, EvidenceError>)
    ensures
        match parse_identity_spec(assignment.spec_assignment().recipient@) {
            None => r == Err::<AuthenticatedPayload, EvidenceError>(EvidenceError::Identity(IdentityError::InvalidIdentity)),
            Some(w) => signature_checked(*envelope, keys@, w, AgentRole::Witness, now_ms, r),
        },
{
    let witness = match AgentIdentity::parse(assignment.assignment.recipient.as_str()) {
        Ok(w) => w,
        Err(e) => {
            return Err(EvidenceError::Identity(e));
        },
    };
    match verify(envelope, keys, &witness, AgentRole::Witness, now_ms) {
        Ok(p) => Ok(p),
        Err(e) => Err(EvidenceError::Identity(e)),
    }
}

/// The index of the first assigned probe with the given ID.
fn find_probe(a: &WitnessAssignment, id: &String) -> (r: Option<usize>)
    ensures
        r matches Some(k) ==> first_probe(*a, id@, k as int),
        r is None ==> forall|k: int| !first_probe(*a, id@, k),
{
    let mut k: usize = 0;
    while k < a.probes.len()
        invariant
            k <= a.probes@.len(),
            forall|j: int| 0 <= j < k ==> (#[trigger] a.probes@[j]).id@ != id@,
        decreases a.probes@.len() - k,
    {
        if a.probes[k].id == *id {
            return Some(k);
        }
        k = k + 1;
    }
    proof {
        assert forall|m: int| !first_probe(*a, id@, m) by {
            if first_probe(*a, id@, m) {
                assert(a.probes@[m].id@ == id@);
            }
        }
    }
    None
}

/// Binds a parsed evidence statement to its verified assignment and to the
/// exact probe it answers.
pub fn bind_evidence(statement: Statement<WitnessEvidence>, envelope: &DsseEnvelope, assignment: &VerifiedAssignment, now_ms: u64)
    -> (r: Result<VerifiedEvidence, EvidenceError>)
    requires
        assignment.spec_probe_digests().len() == assignment.spec_assignment().probes@.len(),
    ensures
        r is Ok <==> evidence_bound(statement, assignment.spec_assignment(), now_ms) && exists|k: int|
            first_probe(assignment.spec_assignment(), statement.predicate.result.probe_id@, k)
            && statement.predicate.probe_digest@ == assignment.spec_probe_digests()[k],
        r matches Ok(v) ==> v.spec_evidence() == statement.predicate && exists|k: int|
            first_probe(assignment.spec_assignment(), statement.predicate.result.probe_id@, k)
            && v.spec_probe() == assignment.spec_assignment().probes@[k]@
            && v.spec_interval_ms() == assignment.spec_assignment().probes@[k].interval_ms
            && v.spec_timeout_ms() == assignment.spec_assignment().probes@[k].limits.timeout_ms
            && v.spec_probe_digest() == assignment.spec_probe_digests()[k]
            && same_envelope(v.spec_envelope(), *envelope)
            && same_envelope(v.spec_assignment_envelope(), assignment.spec_envelope()),
        r matches Err(e) ==> e matches EvidenceError::Binding(_),
{
    let a = &assignment.assignment;
    let e = &statement.predicate;
    let subject = revision_subject(&a.revision);
    let ok = str_eq(statement.statement_type.as_str(), STATEMENT_TYPE)
        && str_eq(statement.predicate_type.as_str(), WITNESS_EVIDENCE_TYPE) && subjects_eq(&statement.subject, &subject)
        && e.version == PROTOCOL_VERSION && !crate::text::str_empty(&e.evidence_id) && str_len(&e.evidence_id) <= 256
        && e.assignment_id == a.assignment_id && e.plan_id == a.plan_id && e.plan_epoch == a.plan_epoch
        && e.graph_version == a.graph_version && e.revision.same(&a.revision) && e.device.same(&a.device)
        && e.witness == a.recipient && e.result.started_at_ms >= a.issued_at_ms
        && e.result.started_at_ms <= e.result.finished_at_ms && e.result.finished_at_ms <= now_ms
        && e.result.finished_at_ms < a.expires_at_ms && str_len(&e.result.detail) <= 4096;
    if !ok {
        return Err(EvidenceError::Binding("evidence scope or timestamps"));
    }
    let k = match find_probe(a, &e.result.probe_id) {
        Some(k) => k,
        None => {
            return Err(EvidenceError::Binding("probe ID"));
        },
    };
    let probe = &a.probes[k];
    assert(assignment.spec_probe_digests()[k as int] == assignment.probe_digests@[k as int]@);
    if e.probe_digest != assignment.probe_digests[k] {
        proof {
            if exists|m: int| first_probe(*a, e.result.probe_id@, m) && e.probe_digest@ == assignment.spec_probe_digests()[m] {
                let m = choose|m: int| first_probe(*a, e.result.probe_id@, m) && e.probe_digest@ == assignment.spec_probe_digests()[m];
                if m < k {
                    assert(a.probes@[m].id@ != e.result.probe_id@);
                } else if k < m {
                    assert(a.probes@[k as int].id@ != e.result.probe_id@);
                }
            }
        }
        return Err(EvidenceError::Binding("exact assigned probe"));
    }
    let interval_ms = probe.interval_ms;
    let timeout_ms = probe.limits.timeout_ms;
    let assigned = probe.duplicate();
    let digest = assignment.probe_digests[k].clone();
    Ok(VerifiedEvidence {
        evidence: statement.predicate,
        envelope: envelope.duplicate(),
        assignment_envelope: assignment.envelope.duplicate(),
        interval_ms,
        timeout_ms,
        probe: assigned,
        probe_digest: digest,
    })
}

} // verus!

//! Independent post-apply evidence gate. Expected probe bindings and LAN
//! placement come from the controller's admitted plan and trusted inventory.
use crate::assurance::{Outcome, Primitive, ProbeSource};
use crate::attestation::{outcome_at_spec, VerifiedEvidence};
use crate::evidence::DeploymentBinding;
use crate::identity::{same_envelope, DsseEnvelope};
use crate::json::{comma_join, extend_bytes, json_array, json_envelope, lemma_same_envelope_json, lit, push_json_envelope};
use crate::protocol::{payload_digest, payload_digest_spec, DeviceBinding, RevisionRef};
use crate::state::{sat_add, sat_mul, saturating_mul_u64};
use crate::text::str_eq;
use vstd::prelude::*;

verus! {

pub struct RequiredVerification {
    pub probe_id: String,
    pub probe_digest: String,
    pub source: ProbeSource,
    /// Set only by trusted topology/inventory; never copied from evidence.
    pub lan_management_path: bool,
}

pub struct ConfirmationScope<'a> {
    pub deployment: &'a DeploymentBinding,
    pub device: &'a DeviceBinding,
    pub revision: &'a RevisionRef,
    pub plan_id: &'a str,
    pub plan_epoch: u64,
    pub graph_version: u64,
    pub provisional_started_at_ms: u64,
    pub deadline_ms: u64,
    pub required: &'a [RequiredVerification],
}

#[derive(Debug, Clone, Copy, PartialEq, Eq, Structural)]
pub enum ConfirmationError {
    /// The confirmation scope lacks a bound LAN management-path contract.
    IncompleteScope,
    /// Confirmation requires two complete independent verification rounds.
    MissingRounds,
    /// Evidence is stale, unsuccessful, duplicated, out of order, or outside deployment scope.
    InvalidEvidence,
    /// The deployment confirmation window has expired or is invalid.
    Expired,
}

#[derive(Clone)]
pub struct SignedVerificationProof {
    pub assignment: DsseEnvelope,
    pub evidence: DsseEnvelope,
}

/// Only this module constructs a successful confirmation; received data is
/// never an authorization to confirm.
pub struct VerifiedDeploymentConfirmation {
    deployment: DeploymentBinding,
    device: DeviceBinding,
    revision: RevisionRef,
    plan_id: String,
    plan_epoch: u64,
    graph_version: u64,
    confirmed_at_ms: u64,
    provisional_started_at_ms: u64,
    deadline_ms: u64,
    expires_at_ms: u64,
    proof_digest: String,
    proofs: Vec<Vec<SignedVerificationProof>>,
}

impl VerifiedDeploymentConfirmation {
    pub closed spec fn spec_deployment(&self) -> DeploymentBinding {
        self.deployment
    }

    pub closed spec fn spec_device(&self) -> DeviceBinding {
        self.device
    }

    pub closed spec fn spec_revision(&self) -> RevisionRef {
        self.revision
    }

    pub closed spec fn spec_plan_id(&self) -> Seq<char> {
        self.plan_id@
    }

    pub closed spec fn spec_plan_epoch(&self) -> u64 {
        self.plan_epoch
    }

    pub closed spec fn spec_graph_version(&self) -> u64 {
        self.graph_version
    }

    pub closed spec fn spec_confirmed_at_ms(&self) -> u64 {
        self.confirmed_at_ms
    }

    pub closed spec fn spec_provisional_started_at_ms(&self) -> u64 {
        self.provisional_started_at_ms
    }

    pub closed spec fn spec_deadline_ms(&self) -> u64 {
        self.deadline_ms
    }

    pub closed spec fn spec_expires_at_ms(&self) -> u64 {
        self.expires_at_ms
    }

    pub closed spec fn spec_proof_digest(&self) -> Seq<char> {
        self.proof_digest@
    }

    pub fn deployment(&self) -> (r: &DeploymentBinding)
        ensures
            *r == self.spec_deployment(),
    {
        &self.deployment
    }

    pub fn device(&self) -> (r: &DeviceBinding)
        ensures
            *r == self.spec_device(),
    {
        &self.device
    }

    pub fn revision(&self) -> (r: &RevisionRef)
        ensures
            *r == self.spec_revision(),
    {
        &self.revision
    }

    pub fn plan_id(&self) -> (r: &str)
        ensures
            r@ == self.spec_plan_id(),
    {
        self.plan_id.as_str()
    }

    pub fn plan_epoch(&self) -> (r: u64)
        ensures
            r == self.spec_plan_epoch(),
    {
        self.plan_epoch
    }

    pub fn graph_version(&self) -> (r: u64)
        ensures
            r == self.spec_graph_version(),
    {
        self.graph_version
    }

    pub fn confirmed_at_ms(&self) -> (r: u64)
        ensures
            r == self.spec_confirmed_at_ms(),
    {
        self.confirmed_at_ms
    }

    pub fn provisional_started_at_ms(&self) -> (r: u64)
        ensures
            r == self.spec_provisional_started_at_ms(),
    {
        self.provisional_started_at_ms
    }

    pub fn deadline_ms(&self) -> (r: u64)
        ensures
            r == self.spec_deadline_ms(),
    {
        self.deadline_ms
    }

    pub fn expires_at_ms(&self) -> (r: u64)
        ensures
            r == self.spec_expires_at_ms(),
    {
        self.expires_at_ms
    }

    pub fn proof_digest(&self) -> (r: &str)
        ensures
            r@ == self.spec_proof_digest(),
    {
        self.proof_digest.as_str()
    }

    /// The JSON encoding of the signed proofs, the bytes the proof digest covers.
    pub closed spec fn spec_proofs_json(&self) -> Seq<u8> {
        json_proofs(self.proofs@)
    }

    pub fn proofs(&self) -> (r: &[Vec<SignedVerificationProof>])
        ensures
            json_proofs(r@) == self.spec_proofs_json(),
    {
        self.proofs.as_slice()
    }
}

pub const ASSIGNMENT_HEAD: &'static str = "{\"assignment\":";
pub const EVIDENCE_KEY: &'static str = ",\"evidence\":";

/// The JSON encoding of one signed proof.
pub open spec fn json_proof(p: SignedVerificationProof) -> Seq<u8> {
    lit(ASSIGNMENT_HEAD) + json_envelope(p.assignment) + lit(EVIDENCE_KEY) + json_envelope(p.evidence) + seq![125u8]
}

pub open spec fn json_proof_round(round: Seq<SignedVerificationProof>) -> Seq<u8> {
    json_array(round.map_values(|p: SignedVerificationProof| json_proof(p)))
}

/// The JSON encoding of the proofs, round by round.
pub open spec fn json_proofs(rounds: Seq<Vec<SignedVerificationProof>>) -> Seq<u8> {
    json_array(rounds.map_values(|round: Vec<SignedVerificationProof>| json_proof_round(round@)))
}

/// The proof that verified evidence contributes: its assignment and evidence envelopes.
pub open spec fn evidence_proof_json(v: VerifiedEvidence) -> Seq<u8> {
    lit(ASSIGNMENT_HEAD) + json_envelope(v.spec_assignment_envelope()) + lit(EVIDENCE_KEY) + json_envelope(v.spec_envelope())
        + seq![125u8]
}

pub open spec fn rounds_proof_json(rounds: Seq<Seq<VerifiedEvidence>>) -> Seq<u8> {
    json_array(
        rounds.map_values(
            |round: Seq<VerifiedEvidence>| json_array(round.map_values(|v: VerifiedEvidence| evidence_proof_json(v))),
        ),
    )
}

pub open spec fn view_rounds(rounds: Seq<Vec<&VerifiedEvidence>>) -> Seq<Seq<VerifiedEvidence>> {
    rounds.map_values(|round: Vec<&VerifiedEvidence>| round@.map_values(|v: &VerifiedEvidence| *v))
}

/// The deployment's confirmation window is open at `now_ms`.
pub open spec fn window_open(scope: ConfirmationScope, now_ms: u64) -> bool {
    scope.provisional_started_at_ms < scope.deadline_ms && scope.provisional_started_at_ms <= now_ms && now_ms < scope.deadline_ms
}

/// At least one required probe, no probe ID twice, and a LAN management path among them.
pub open spec fn scope_complete(required: Seq<RequiredVerification>) -> bool {
    &&& required.len() > 0
    &&& forall|i: int, j: int| 0 <= i < j < required.len() ==> (#[trigger] required[i]).probe_id@ != (#[trigger] required[j]).probe_id@
    &&& exists|i: int| 0 <= i < required.len() && (#[trigger] required[i]).lan_management_path
}

/// `q` is the first required verification of the probe `id`.
pub open spec fn first_required(required: Seq<RequiredVerification>, id: Seq<char>, q: int) -> bool {
    &&& 0 <= q < required.len()
    &&& required[q].probe_id@ == id
    &&& forall|j: int| 0 <= j < q ==> (#[trigger] required[j]).probe_id@ != id
}

/// The evidence answers exactly the required probe, from its source; a LAN
/// management path is checked by a TCP or HTTP probe with an endpoint.
pub open spec fn matches_required(v: VerifiedEvidence, x: RequiredVerification) -> bool {
    let e = v.spec_evidence();
    let p = v.spec_probe();
    &&& e.probe_digest@ == x.probe_digest@
    &&& v.spec_probe_digest() == x.probe_digest@
    &&& p.source == x.source@
    &&& e.witness@ == x.source.witness_id@
    &&& x.lan_management_path ==> (p.primitive == Primitive::TcpConnect || p.primitive == Primitive::Http) && p.endpoint is Some
}

/// The evidence is bound to this deployment and plan, successful now, and
/// ran inside the confirmation window.
pub open spec fn in_deployment_scope(v: VerifiedEvidence, scope: ConfirmationScope, now_ms: u64) -> bool {
    let e = v.spec_evidence();
    &&& e.deployment matches Some(d) && d@ == scope.deployment@
    &&& e.device@ == scope.device@
    &&& e.revision@ == scope.revision@
    &&& e.plan_id@ == scope.plan_id@
    &&& e.plan_epoch == scope.plan_epoch
    &&& e.graph_version == scope.graph_version
    &&& outcome_at_spec(e, v.spec_interval_ms(), v.spec_timeout_ms(), now_ms) == Outcome::Success
    &&& e.result.started_at_ms >= scope.provisional_started_at_ms
    &&& e.result.finished_at_ms < scope.deadline_ms
}

/// Evidence `i` of round `r` is acceptable: it matches its required probe,
/// no earlier evidence of the round names the same probe, no earlier
/// evidence has its ID, it is in scope, and it started after every earlier
/// round finished.
pub open spec fn item_ok(rounds: Seq<Seq<VerifiedEvidence>>, r: int, i: int, scope: ConfirmationScope, now_ms: u64) -> bool {
    let v = rounds[r][i];
    let e = v.spec_evidence();
    &&& exists|q: int| first_required(scope.required@, e.result.probe_id@, q) && matches_required(v, scope.required@[q])
    &&& forall|j: int| 0 <= j < i ==> (#[trigger] rounds[r][j]).spec_evidence().result.probe_id@ != e.result.probe_id@
    &&& forall|j: int| 0 <= j < i ==> (#[trigger] rounds[r][j]).spec_evidence().evidence_id@ != e.evidence_id@
    &&& forall|s: int, j: int| 0 <= s < r && 0 <= j < rounds[s].len()
        ==> (#[trigger] rounds[s][j]).spec_evidence().evidence_id@ != e.evidence_id@
    &&& forall|s: int, j: int| 0 <= s < r && 0 <= j < rounds[s].len()
        ==> e.result.started_at_ms > (#[trigger] rounds[s][j]).spec_evidence().result.finished_at_ms
    &&& in_deployment_scope(v, scope, now_ms)
}

pub open spec fn round_items_ok(rounds: Seq<Seq<VerifiedEvidence>>, r: int, scope: ConfirmationScope, now_ms: u64) -> bool {
    forall|i: int| 0 <= i < rounds[r].len() ==> #[trigger] item_ok(rounds, r, i, scope, now_ms)
}

/// The decision on a confirmation request, in the order the checks are made.
pub open spec fn confirmation_decision(rounds: Seq<Seq<VerifiedEvidence>>, scope: ConfirmationScope, now_ms: u64) -> Result<(), ConfirmationError> {
    let n = scope.required@.len();
    if !window_open(scope, now_ms) {
        Err(ConfirmationError::Expired)
    } else if !scope_complete(scope.required@) {
        Err(ConfirmationError::IncompleteScope)
    } else if rounds.len() != 2 || rounds[0].len() != n {
        Err(ConfirmationError::MissingRounds)
    } else if !round_items_ok(rounds, 0, scope, now_ms) {
        Err(ConfirmationError::InvalidEvidence)
    } else if rounds[1].len() != n {
        Err(ConfirmationError::MissingRounds)
    } else if !round_items_ok(rounds, 1, scope, now_ms) {
        Err(ConfirmationError::InvalidEvidence)
    } else {
        Ok(())
    }
}

/// The exclusive end of the evidence's freshness.
pub open spec fn fresh_end(v: VerifiedEvidence) -> u64 {
    sat_add(
        sat_add(sat_add(v.spec_evidence().result.finished_at_ms, sat_mul(v.spec_interval_ms(), 3)), v.spec_timeout_ms()),
        1,
    )
}

/// The earliest freshness end of the evidence, and `start` at most.
pub open spec fn min_fresh_end(vs: Seq<VerifiedEvidence>, start: u64) -> u64
    decreases vs.len(),
{
    if vs.len() == 0 {
        start
    } else {
        let m = min_fresh_end(vs.drop_last(), start);
        let x = fresh_end(vs.last());
        if x < m { x } else { m }
    }
}

/// The first required verification for `id`.
fn find_required(required: &[RequiredVerification], id: &String) -> (r: Option<usize>)
    ensures
        r matches Some(q) ==> first_required(required@, id@, q as int),
        r is None ==> forall|q: int| !first_required(required@, id@, q),
{
    let mut q: usize = 0;
    while q < required.len()
        invariant
            q <= required@.len(),
            forall|j: int| 0 <= j < q ==> (#[trigger] required@[j]).probe_id@ != id@,
        decreases required@.len() - q,
    {
        if required[q].probe_id == *id {
            return Some(q);
        }
        q = q + 1;
    }
    proof {
        assert forall|m: int| !first_required(required@, id@, m) by {
            if first_required(required@, id@, m) {
                assert(required@[m].probe_id@ == id@);
            }
        }
    }
    None
}

fn check_matches_required(v: &VerifiedEvidence, x: &RequiredVerification) -> (b: bool)
    ensures
        b == matches_required(*v, *x),
{
    let e = v.evidence();
    let p = v.assigned_probe();
    let lan_ok = !x.lan_management_path
        || ((p.primitive == Primitive::TcpConnect || p.primitive == Primitive::Http) && p.endpoint.is_some());
    e.probe_digest == x.probe_digest && str_eq(v.assigned_probe_digest(), x.probe_digest.as_str()) && p.source.same(&x.source)
        && e.witness == x.source.witness_id && lan_ok
}

fn check_in_scope(v: &VerifiedEvidence, scope: &ConfirmationScope, now_ms: u64) -> (b: bool)
    ensures
        b == in_deployment_scope(*v, *scope, now_ms),
{
    let e = v.evidence();
    let bound = match &e.deployment {
        Some(d) => d.same(scope.deployment),
        None => false,
    };
    bound && e.device.same(scope.device) && e.revision.same(scope.revision) && str_eq(e.plan_id.as_str(), scope.plan_id)
        && e.plan_epoch == scope.plan_epoch && e.graph_version == scope.graph_version
        && v.outcome_at(now_ms) == Outcome::Success && e.result.started_at_ms >= scope.provisional_started_at_ms
        && e.result.finished_at_ms < scope.deadline_ms
}

fn check_item(rounds: &[Vec<&VerifiedEvidence>], r: usize, i: usize, scope: &ConfirmationScope, now_ms: u64) -> (b: bool)
    requires
        r < rounds@.len(),
        i < rounds@[r as int]@.len(),
    ensures
        b == item_ok(view_rounds(rounds@), r as int, i as int, *scope, now_ms),
{
    let ghost rs = view_rounds(rounds@);
    let v: &VerifiedEvidence = rounds[r][i];
    assert(rs[r as int][i as int] == *v);
    let e = v.evidence();
    let q = match find_required(scope.required, &e.result.probe_id) {
        Some(q) => q,
        None => {
            return false;
        },
    };
    if !check_matches_required(v, &scope.required[q]) {
        proof {
            assert forall|m: int| !(first_required(scope.required@, e.result.probe_id@, m)
                && matches_required(*v, scope.required@[m])) by {
                if first_required(scope.required@, e.result.probe_id@, m) && m != q {
                    if m < q {
                        assert(scope.required@[m].probe_id@ != e.result.probe_id@);
                    } else {
                        assert(scope.required@[q as int].probe_id@ != e.result.probe_id@);
                    }
                }
            }
        }
        return false;
    }
    let round = &rounds[r];
    let mut j: usize = 0;
    while j < i
        invariant
            rs == view_rounds(rounds@),
            r < rounds@.len(),
            round == &rounds@[r as int],
            i < round@.len(),
            *v == rs[r as int][i as int],
            *e == v.spec_evidence(),
            j <= i,
            forall|k: int| 0 <= k < j ==> (#[trigger] rs[r as int][k]).spec_evidence().result.probe_id@ != e.result.probe_id@
                && rs[r as int][k].spec_evidence().evidence_id@ != e.evidence_id@,
        decreases i - j,
    {
        let w: &VerifiedEvidence = round[j];
        assert(rs[r as int][j as int] == *w);
        let f = w.evidence();
        if f.result.probe_id == e.result.probe_id || f.evidence_id == e.evidence_id {
            return false;
        }
        j = j + 1;
    }
    let mut s: usize = 0;
    while s < r
        invariant
            rs == view_rounds(rounds@),
            r < rounds@.len(),
            *e == v.spec_evidence(),
            *v == rs[r as int][i as int],
            s <= r,
            forall|t: int, k: int| 0 <= t < s && 0 <= k < rs[t].len() ==> (#[trigger] rs[t][k]).spec_evidence().evidence_id@ != e.evidence_id@
                && e.result.started_at_ms > rs[t][k].spec_evidence().result.finished_at_ms,
        decreases r - s,
    {
        let earlier = &rounds[s];
        let mut k: usize = 0;
        while k < earlier.len()
            invariant
                rs == view_rounds(rounds@),
                s < r < rounds@.len(),
                earlier == &rounds@[s as int],
                *e == v.spec_evidence(),
                *v == rs[r as int][i as int],
                k <= earlier@.len(),
                forall|t: int, m: int| 0 <= t < s && 0 <= m < rs[t].len() ==> (#[trigger] rs[t][m]).spec_evidence().evidence_id@ != e.evidence_id@
                    && e.result.started_at_ms > rs[t][m].spec_evidence().result.finished_at_ms,
                forall|m: int| 0 <= m < k ==> (#[trigger] rs[s as int][m]).spec_evidence().evidence_id@ != e.evidence_id@
                    && e.result.started_at_ms > rs[s as int][m].spec_evidence().result.finished_at_ms,
            decreases earlier@.len() - k,
        {
            let w: &VerifiedEvidence = earlier[k];
            assert(rs[s as int][k as int] == *w);
            let f = w.evidence();
            if f.evidence_id == e.evidence_id || e.result.started_at_ms <= f.result.finished_at_ms {
                proof {
                    assert(rs[s as int].len() == earlier@.len());
                    assert(!(rs[s as int][k as int].spec_evidence().evidence_id@ != e.evidence_id@
                        && e.result.started_at_ms > rs[s as int][k as int].spec_evidence().result.finished_at_ms));
                }
                return false;
            }
            k = k + 1;
        }
        s = s + 1;
    }
    check_in_scope(v, scope, now_ms)
}

fn check_scope_complete(required: &[RequiredVerification]) -> (b: bool)
    ensures
        b == scope_complete(required@),
{
    if required.len() == 0 {
        return false;
    }
    let mut lan = false;
    let mut i: usize = 0;
    while i < required.len()
        invariant
            0 < required@.len(),
            i <= required@.len(),
            forall|a: int, b: int| 0 <= a < b < i ==> (#[trigger] required@[a]).probe_id@ != (#[trigger] required@[b]).probe_id@,
            lan == exists|k: int| 0 <= k < i && (#[trigger] required@[k]).lan_management_path,
        decreases required@.len() - i,
    {
        let mut j: usize = 0;
        while j < i
            invariant
                i < required@.len(),
                j <= i,
                forall|k: int| 0 <= k < j ==> (#[trigger] required@[k]).probe_id@ != required@[i as int].probe_id@,
            decreases i - j,
        {
            if required[j].probe_id == required[i].probe_id {
                proof {
                    assert(required@[j as int].probe_id@ == required@[i as int].probe_id@);
                }
                return false;
            }
            j = j + 1;
        }
        if required[i].lan_management_path {
            lan = true;
            assert(required@[i as int].lan_management_path);
        }
        i = i + 1;
    }
    lan
}

fn push_json_proof(out: &mut Vec<u8>, p: &SignedVerificationProof)
    ensures
        final(out)@ == old(out)@ + json_proof(*p),
{
    let ghost start = out@;
    extend_bytes(out, ASSIGNMENT_HEAD.as_bytes());
    push_json_envelope(out, &p.assignment);
    extend_bytes(out, EVIDENCE_KEY.as_bytes());
    push_json_envelope(out, &p.evidence);
    out.push(125);
    assert(out@ =~= start + json_proof(*p));
}

#[verifier::spinoff_prover]
#[verifier::rlimit(40)]
fn push_json_proof_round(out: &mut Vec<u8>, v: &Vec<SignedVerificationProof>)
    ensures
        final(out)@ == old(out)@ + json_proof_round(v@),
{
    let ghost start = out@;
    let ghost parts = v@.map_values(|p: SignedVerificationProof| json_proof(p));
    out.push(91);
    let mut i: usize = 0;
    while i < v.len()
        invariant
            i <= v@.len(),
            parts == v@.map_values(|p: SignedVerificationProof| json_proof(p)),
            out@ == start + seq![91u8] + comma_join(parts.subrange(0, i as int)),
        decreases v@.len() - i,
    {
        if i > 0 {
            out.push(44);
        }
        push_json_proof(out, &v[i]);
        proof {
            let p = parts.subrange(0, i + 1);
            assert(p.drop_last() =~= parts.subrange(0, i as int));
            assert(p.last() == json_proof(v@[i as int]));
            if i == 0 {
                assert(comma_join(p) == p[0]);
            }
        }
        i = i + 1;
        assert(out@ =~= start + seq![91u8] + comma_join(parts.subrange(0, i as int)));
    }
    assert(parts.subrange(0, parts.len() as int) =~= parts);
    out.push(93);
    assert(out@ =~= start + json_proof_round(v@));
}

/// The JSON encoding of the proofs.
pub fn proofs_json(proofs: &Vec<Vec<SignedVerificationProof>>) -> (r: Vec<u8>)
    ensures
        r@ == json_proofs(proofs@),
{
    let mut out: Vec<u8> = Vec::new();
    let ghost parts = proofs@.map_values(|round: Vec<SignedVerificationProof>| json_proof_round(round@));
    out.push(91);
    let mut i: usize = 0;
    while i < proofs.len()
        invariant
            i <= proofs@.len(),
            parts == proofs@.map_values(|round: Vec<SignedVerificationProof>| json_proof_round(round@)),
            out@ == seq![91u8] + comma_join(parts.subrange(0, i as int)),
        decreases proofs@.len() - i,
    {
        if i > 0 {
            out.push(44);
        }
        push_json_proof_round(&mut out, &proofs[i]);
        proof {
            let p = parts.subrange(0, i + 1);
            assert(p.drop_last() =~= parts.subrange(0, i as int));
            assert(p.last() == json_proof_round(proofs@[i as int]@));
            if i == 0 {
                assert(comma_join(p) == p[0]);
            }
        }
        i = i + 1;
        assert(out@ =~= seq![91u8] + comma_join(parts.subrange(0, i as int)));
    }
    assert(parts.subrange(0, parts.len() as int) =~= parts);
    out.push(93);
    assert(out@ =~= json_proofs(proofs@));
    out
}

/// Each proof carries the envelopes of the corresponding verified evidence.
pub open spec fn proofs_match(ps: Seq<SignedVerificationProof>, vs: Seq<VerifiedEvidence>) -> bool {
    &&& ps.len() == vs.len()
    &&& forall|k: int| 0 <= k < ps.len() ==> same_envelope((#[trigger] ps[k]).assignment, vs[k].spec_assignment_envelope())
        && same_envelope(ps[k].evidence, vs[k].spec_envelope())
}

proof fn lemma_proofs_json(proofs: Seq<Vec<SignedVerificationProof>>, rs: Seq<Seq<VerifiedEvidence>>)
    requires
        proofs.len() == rs.len(),
        forall|t: int| 0 <= t < proofs.len() ==> proofs_match((#[trigger] proofs[t])@, rs[t]),
    ensures
        json_proofs(proofs) == rounds_proof_json(rs),
{
    let outer_a = proofs.map_values(|round: Vec<SignedVerificationProof>| json_proof_round(round@));
    let outer_b = rs.map_values(
        |round: Seq<VerifiedEvidence>| json_array(round.map_values(|v: VerifiedEvidence| evidence_proof_json(v))),
    );
    assert forall|t: int| 0 <= t < outer_a.len() implies outer_a[t] == outer_b[t] by {
        let ps = proofs[t]@;
        let vs = rs[t];
        assert(proofs_match(ps, vs));
        let a = ps.map_values(|p: SignedVerificationProof| json_proof(p));
        let b = vs.map_values(|v: VerifiedEvidence| evidence_proof_json(v));
        assert forall|k: int| 0 <= k < a.len() implies a[k] == b[k] by {
            assert(same_envelope(ps[k].assignment, vs[k].spec_assignment_envelope()));
            lemma_same_envelope_json(ps[k].assignment, vs[k].spec_assignment_envelope());
            lemma_same_envelope_json(ps[k].evidence, vs[k].spec_envelope());
        }
        assert(a =~= b);
    }
    assert(outer_a =~= outer_b);
}

/// Confirms a deployment from two complete rounds of independent
/// verification evidence: every required probe answered once per round by
/// fresh successful evidence bound to this deployment, the second round
/// started after the first finished, and no evidence reused.
pub fn verify_confirmation(rounds: &[Vec<&VerifiedEvidence>], scope: &ConfirmationScope, now_ms: u64)
    -> (r: Result<VerifiedDeploymentConfirmation, ConfirmationError>)
    ensures
        match r {
            Ok(c) => {
                let rs = view_rounds(rounds@);
                &&& confirmation_decision(rs, *scope, now_ms) is Ok
                &&& c.spec_deployment()@ == scope.deployment@
                &&& c.spec_device()@ == scope.device@
                &&& c.spec_revision()@ == scope.revision@
                &&& c.spec_plan_id() == scope.plan_id@
                &&& c.spec_plan_epoch() == scope.plan_epoch
                &&& c.spec_graph_version() == scope.graph_version
                &&& c.spec_confirmed_at_ms() == now_ms
                &&& c.spec_provisional_started_at_ms() == scope.provisional_started_at_ms
                &&& c.spec_deadline_ms() == scope.deadline_ms
                &&& c.spec_expires_at_ms() == min_fresh_end(rs[1], min_fresh_end(rs[0], scope.deadline_ms))
                &&& c.spec_proofs_json() == rounds_proof_json(rs)
                &&& c.spec_proof_digest() == payload_digest_spec(rounds_proof_json(rs))
            },
            Err(x) => confirmation_decision(view_rounds(rounds@), *scope, now_ms) == Err::<(), ConfirmationError>(x),
        },
{
    let ghost rs = view_rounds(rounds@);
    if scope.deadline_ms <= scope.provisional_started_at_ms || now_ms >= scope.deadline_ms
        || now_ms < scope.provisional_started_at_ms {
        return Err(ConfirmationError::Expired);
    }
    if !check_scope_complete(scope.required) {
        return Err(ConfirmationError::IncompleteScope);
    }
    if rounds.len() != 2 {
        return Err(ConfirmationError::MissingRounds);
    }
    let n = scope.required.len();
    let mut expires_at_ms = scope.deadline_ms;
    let mut r: usize = 0;
    while r < 2
        invariant
            rs == view_rounds(rounds@),
            rounds@.len() == 2,
            n == scope.required@.len(),
            window_open(*scope, now_ms),
            scope_complete(scope.required@),
            r <= 2,
            forall|t: int| 0 <= t < r ==> (#[trigger] rs[t]).len() == n && round_items_ok(rs, t, *scope, now_ms),
            r == 0 ==> expires_at_ms == scope.deadline_ms,
            r == 1 ==> expires_at_ms == min_fresh_end(rs[0], scope.deadline_ms),
            r == 2 ==> expires_at_ms == min_fresh_end(rs[1], min_fresh_end(rs[0], scope.deadline_ms)),
        decreases 2 - r,
    {
        let round = &rounds[r];
        if round.len() != n {
            return Err(ConfirmationError::MissingRounds);
        }
        let ghost start = expires_at_ms;
        let mut i: usize = 0;
        while i < round.len()
            invariant
                rs == view_rounds(rounds@),
                rounds@.len() == 2,
                r < 2,
                round == &rounds@[r as int],
                rs[r as int].len() == round@.len(),
                round@.len() == n,
                n == scope.required@.len(),
                window_open(*scope, now_ms),
                scope_complete(scope.required@),
                forall|t: int| 0 <= t < r ==> (#[trigger] rs[t]).len() == n && round_items_ok(rs, t, *scope, now_ms),
                i <= round@.len(),
                forall|k: int| 0 <= k < i ==> #[trigger] item_ok(rs, r as int, k, *scope, now_ms),
                expires_at_ms == min_fresh_end(rs[r as int].subrange(0, i as int), start),
            decreases round@.len() - i,
        {
            if !check_item(rounds, r, i, scope, now_ms) {
                return Err(ConfirmationError::InvalidEvidence);
            }
            let v: &VerifiedEvidence = round[i];
            assert(rs[r as int][i as int] == *v);
            let e = v.evidence();
            let end = e.result.finished_at_ms.saturating_add(saturating_mul_u64(v.interval_ms(), 3)).saturating_add(
                v.timeout_ms(),
            ).saturating_add(1);
            if end < expires_at_ms {
                expires_at_ms = end;
            }
            proof {
                let p = rs[r as int].subrange(0, i + 1);
                assert(p.drop_last() =~= rs[r as int].subrange(0, i as int));
                assert(p.last() == *v);
            }
            i = i + 1;
        }
        assert(rs[r as int].subrange(0, rs[r as int].len() as int) =~= rs[r as int]);
        r = r + 1;
    }
    let mut proofs: Vec<Vec<SignedVerificationProof>> = Vec::new();
    let mut r: usize = 0;
    while r < rounds.len()
        invariant
            rs == view_rounds(rounds@),
            r <= rounds@.len(),
            proofs@.len() == r,
            forall|t: int| 0 <= t < r ==> proofs_match((#[trigger] proofs@[t])@, rs[t]),
        decreases rounds@.len() - r,
    {
        let round = &rounds[r];
        let mut out: Vec<SignedVerificationProof> = Vec::new();
        let mut i: usize = 0;
        while i < round.len()
            invariant
                rs == view_rounds(rounds@),
                r < rounds@.len(),
                round == &rounds@[r as int],
                rs[r as int].len() == round@.len(),
                i <= round@.len(),
                out@.len() == i,
                forall|k: int| 0 <= k < i ==> same_envelope((#[trigger] out@[k]).assignment, rs[r as int][k].spec_assignment_envelope())
                    && same_envelope(out@[k].evidence, rs[r as int][k].spec_envelope()),
            decreases round@.len() - i,
        {
            let v: &VerifiedEvidence = round[i];
            assert(rs[r as int][i as int] == *v);
            let p = SignedVerificationProof { assignment: v.assignment_envelope().duplicate(), evidence: v.envelope().duplicate() };
            out.push(p);
            i = i + 1;
        }
        proofs.push(out);
        r = r + 1;
    }
    proof {
        lemma_proofs_json(proofs@, rs);
    }
    let bytes = proofs_json(&proofs);
    let proof_digest = payload_digest(bytes.as_slice());
    Ok(VerifiedDeploymentConfirmation {
        deployment: scope.deployment.duplicate(),
        device: scope.device.duplicate(),
        revision: scope.revision.duplicate(),
        plan_id: scope.plan_id.to_string(),
        plan_epoch: scope.plan_epoch,
        graph_version: scope.graph_version,
        confirmed_at_ms: now_ms,
        provisional_started_at_ms: scope.provisional_started_at_ms,
        deadline_ms: scope.deadline_ms,
        expires_at_ms,
        proof_digest,
        proofs,
    })
}

} // verus!

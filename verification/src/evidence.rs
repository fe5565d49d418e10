//! In-toto statements that carry witness assignments and evidence.
use crate::assurance::{Outcome, ProbeResult, ProbeSpec};
use crate::protocol::{DeviceBinding, DeviceBindingView, RevisionRef, RevisionRefView};
use crate::state::Completeness;
use vstd::prelude::*;

verus! {

pub const STATEMENT_TYPE: &'static str = "https://in-toto.io/Statement/v1";

pub const WITNESS_ASSIGNMENT_TYPE: &'static str = "urn:network-intent:assignment:witness:v1";

pub const WITNESS_EVIDENCE_TYPE: &'static str = "urn:network-intent:evidence:witness:v1";

#[derive(Debug, Clone, PartialEq, Eq)]
pub struct Statement<T> {
    pub statement_type: String,
    pub subject: Vec<Subject>,
    pub predicate_type: String,
    pub predicate: T,
}

/// A statement subject. `digest` lists (algorithm, hex digest) pairs in
/// ascending algorithm order.
#[derive(Debug, Clone, PartialEq, Eq)]
pub struct Subject {
    pub name: String,
    pub digest: Vec<(String, String)>,
}

pub struct SubjectView {
    pub name: Seq<char>,
    pub digest: Seq<(Seq<char>, Seq<char>)>,
}

impl View for Subject {
    type V = SubjectView;
    open spec fn view(&self) -> SubjectView {
        SubjectView {
            name: self.name@,
            digest: view_digest(self.digest@),
        }
    }
}

pub open spec fn view_subjects(s: Seq<Subject>) -> Seq<SubjectView> {
    s.map_values(|x: Subject| x@)
}

/// The single subject naming a revision by its SHA-256 source digest.
pub open spec fn revision_subject_spec(revision: RevisionRefView) -> Seq<SubjectView> {
    seq![SubjectView { name: revision.id, digest: seq![("sha256"@, revision.source_digest)] }]
}

pub fn revision_subject(revision: &RevisionRef) -> (r: Vec<Subject>)
    ensures
        view_subjects(r@) == revision_subject_spec(revision@),
{
    let mut digest: Vec<(String, String)> = Vec::new();
    digest.push(("sha256".to_string(), revision.source_digest.clone()));
    let mut r: Vec<Subject> = Vec::new();
    r.push(Subject { name: revision.id.clone(), digest });
    proof {
        assert(r@[0]@.digest =~= seq![("sha256"@, revision@.source_digest)]);
        assert(view_subjects(r@) =~= revision_subject_spec(revision@));
    }
    r
}

pub open spec fn view_digest(d: Seq<(String, String)>) -> Seq<(Seq<char>, Seq<char>)> {
    d.map_values(|e: (String, String)| (e.0@, e.1@))
}

fn digest_eq(x: &Vec<(String, String)>, y: &Vec<(String, String)>) -> (r: bool)
    ensures
        r == (view_digest(x@) == view_digest(y@)),
{
    if x.len() != y.len() {
        proof {
            if view_digest(x@) == view_digest(y@) {
                assert(view_digest(x@).len() == view_digest(y@).len());
            }
        }
        return false;
    }
    let mut k: usize = 0;
    while k < x.len()
        invariant
            x@.len() == y@.len(),
            k <= x@.len(),
            forall|m: int| 0 <= m < k ==> view_digest(x@)[m] == view_digest(y@)[m],
        decreases x@.len() - k,
    {
        if !(x[k].0 == y[k].0 && x[k].1 == y[k].1) {
            proof {
                if view_digest(x@) == view_digest(y@) {
                    assert(view_digest(x@)[k as int] == view_digest(y@)[k as int]);
                }
            }
            return false;
        }
        k = k + 1;
    }
    assert(view_digest(x@) =~= view_digest(y@));
    true
}

/// Whether two subject lists are equal entry by entry.
pub fn subjects_eq(a: &Vec<Subject>, b: &Vec<Subject>) -> (r: bool)
    ensures
        r == (view_subjects(a@) == view_subjects(b@)),
{
    if a.len() != b.len() {
        proof {
            if view_subjects(a@) == view_subjects(b@) {
                assert(view_subjects(a@).len() == view_subjects(b@).len());
            }
        }
        return false;
    }
    let mut i: usize = 0;
    while i < a.len()
        invariant
            a@.len() == b@.len(),
            i <= a@.len(),
            forall|j: int| 0 <= j < i ==> a@[j]@ == b@[j]@,
        decreases a@.len() - i,
    {
        if !(a[i].name == b[i].name && digest_eq(&a[i].digest, &b[i].digest)) {
            proof {
                if view_subjects(a@) == view_subjects(b@) {
                    assert(view_subjects(a@)[i as int] == view_subjects(b@)[i as int]);
                }
            }
            return false;
        }
        i = i + 1;
    }
    assert(view_subjects(a@) =~= view_subjects(b@));
    true
}

#[derive(Debug, Clone, PartialEq, Eq)]
pub struct WitnessAssignment {
    pub version: u32,
    pub assignment_id: String,
    pub issuer: String,
    pub recipient: String,
    pub issued_at_ms: u64,
    pub expires_at_ms: u64,
    pub plan_id: String,
    pub plan_epoch: u64,
    pub graph_version: u64,
    pub revision: RevisionRef,
    pub device: DeviceBinding,
    pub probes: Vec<ProbeSpec>,
}

/// Binds post-apply evidence to one deployment and its durable restore checkpoint.
#[derive(Debug, Clone, PartialEq, Eq)]
pub struct DeploymentBinding {
    pub deployment_id: String,
    pub checkpoint_digest: String,
}

pub struct DeploymentBindingView {
    pub deployment_id: Seq<char>,
    pub checkpoint_digest: Seq<char>,
}

impl View for DeploymentBinding {
    type V = DeploymentBindingView;
    open spec fn view(&self) -> DeploymentBindingView {
        DeploymentBindingView { deployment_id: self.deployment_id@, checkpoint_digest: self.checkpoint_digest@ }
    }
}

impl DeploymentBinding {
    pub fn same(&self, other: &DeploymentBinding) -> (r: bool)
        ensures
            r == (self.deployment_id@ == other.deployment_id@ && self.checkpoint_digest@ == other.checkpoint_digest@),
            r == (self@ == other@),
    {
        self.deployment_id == other.deployment_id && self.checkpoint_digest == other.checkpoint_digest
    }

    pub fn duplicate(&self) -> (r: DeploymentBinding)
        ensures
            r@ == self@,
    {
        DeploymentBinding { deployment_id: self.deployment_id.clone(), checkpoint_digest: self.checkpoint_digest.clone() }
    }
}

#[derive(Debug, Clone, PartialEq, Eq)]
pub struct WitnessEvidence {
    pub deployment: Option<DeploymentBinding>,
    pub version: u32,
    pub evidence_id: String,
    pub assignment_id: String,
    pub plan_id: String,
    pub plan_epoch: u64,
    pub graph_version: u64,
    pub revision: RevisionRef,
    pub device: DeviceBinding,
    pub witness: String,
    pub probe_digest: String,
    pub completeness: Completeness,
    pub result: ProbeResult,
}

} // verus!

//! The guarded-apply state machine of one device agent. Every effect goes
//! through [`ApplyBackend`]; every transition first re-checks the device's
//! fencing record, and phases only move forward.
use crate::confirmation::VerifiedDeploymentConfirmation;
use crate::protocol::{DeviceBinding, RevisionRef};
use crate::storage::{bytes_lt, bytes_lt_exec, lemma_bytes_lt_irreflexive, lemma_bytes_lt_total, lemma_bytes_lt_transitive};
use crate::text::{str_empty, view_strings};
use vstd::prelude::*;

verus! {

pub const DEFAULT_CONFIRMATION_WINDOW_MS: u64 = 180_000;

pub const REQUIRED_VERIFICATION_ROUNDS: u32 = 2;

#[derive(Debug, Clone, PartialEq, Eq)]
pub struct OwnedBaselineField {
    pub package: String,
    pub section: String,
    pub field: String,
    /// Digest of a non-secret baseline value; raw values never enter the journal.
    pub value_digest: Option<String>,
    /// Stable secret-store reference, never a secret value.
    pub secret_reference: Option<String>,
}

#[derive(Debug, Clone, PartialEq, Eq)]
pub struct DeploymentRequest {
    pub deployment_id: String,
    pub device: DeviceBinding,
    pub plan_epoch: u64,
    pub revision: RevisionRef,
    pub plan_id: String,
    pub plan_digest: String,
    pub graph_version: u64,
    pub owned_baseline_digest: String,
    pub owned_baseline: Vec<OwnedBaselineField>,
    pub confirmation_window_ms: Option<u64>,
}

#[derive(Debug, Clone, Copy, PartialEq, Eq, Structural)]
pub enum DeploymentPhase {
    Prepared,
    Preflighted,
    Staged,
    Checkpointed,
    ProvisionalIntent,
    AwaitingVerification,
    ConfirmIntent,
    Confirmed,
    RollingBack,
    RolledBack,
    Uncertain,
}

pub open spec fn phase_name(p: DeploymentPhase) -> Seq<char> {
    match p {
        DeploymentPhase::Prepared => "prepared"@,
        DeploymentPhase::Preflighted => "preflighted"@,
        DeploymentPhase::Staged => "staged"@,
        DeploymentPhase::Checkpointed => "checkpointed"@,
        DeploymentPhase::ProvisionalIntent => "provisional_intent"@,
        DeploymentPhase::AwaitingVerification => "awaiting_verification"@,
        DeploymentPhase::ConfirmIntent => "confirm_intent"@,
        DeploymentPhase::Confirmed => "confirmed"@,
        DeploymentPhase::RollingBack => "rolling_back"@,
        DeploymentPhase::RolledBack => "rolled_back"@,
        DeploymentPhase::Uncertain => "uncertain"@,
    }
}

/// Position along the successful path; other phases are off it.
pub open spec fn forward_rank(p: DeploymentPhase) -> int {
    match p {
        DeploymentPhase::Prepared => 0,
        DeploymentPhase::Preflighted => 1,
        DeploymentPhase::Staged => 2,
        DeploymentPhase::Checkpointed => 3,
        DeploymentPhase::ProvisionalIntent => 4,
        DeploymentPhase::AwaitingVerification => 5,
        DeploymentPhase::ConfirmIntent => 6,
        DeploymentPhase::Confirmed => 7,
        _ => -1,
    }
}

/// Finished deployments no longer hold their device.
pub open spec fn finished(p: DeploymentPhase) -> bool {
    p == DeploymentPhase::Confirmed || p == DeploymentPhase::RolledBack
}

#[derive(Debug, Clone, PartialEq, Eq)]
pub enum JournalError {
    /// The deployment request is invalid.
    Invalid(&'static str),
    /// A deployment ID was reused with conflicting immutable contents.
    ConflictingDeployment,
    /// Another deployment is unfinished for this device.
    ActiveDeployment,
    /// The deployment is not in the required phase.
    WrongPhase(DeploymentPhase),
    /// The device fence, profile, or plan epoch is stale.
    StaleBinding,
    /// The journal holds invalid or inconsistent state.
    CorruptState,
    /// The backend operation failed.
    Backend(String),
    /// The backend confirmation outcome is unknown; reconciliation must resolve it first.
    UncertainConfirmation,
    /// No deployment has this ID.
    UnknownDeployment,
}

impl DeploymentPhase {
    pub fn as_str(self) -> (r: &'static str)
        ensures
            r@ == phase_name(self),
    {
        match self {
            DeploymentPhase::Prepared => "prepared",
            DeploymentPhase::Preflighted => "preflighted",
            DeploymentPhase::Staged => "staged",
            DeploymentPhase::Checkpointed => "checkpointed",
            DeploymentPhase::ProvisionalIntent => "provisional_intent",
            DeploymentPhase::AwaitingVerification => "awaiting_verification",
            DeploymentPhase::ConfirmIntent => "confirm_intent",
            DeploymentPhase::Confirmed => "confirmed",
            DeploymentPhase::RollingBack => "rolling_back",
            DeploymentPhase::RolledBack => "rolled_back",
            DeploymentPhase::Uncertain => "uncertain",
        }
    }

    /// Reads a stored phase name; anything else is corrupt state.
    pub fn parse(v: &str) -> (r: Result<DeploymentPhase, JournalError>)
        ensures
            match r {
                Ok(p) => phase_name(p) == v@,
                Err(e) => e == JournalError::CorruptState && forall|p: DeploymentPhase| phase_name(p) != v@,
            },
    {
        let all = [
            DeploymentPhase::Prepared,
            DeploymentPhase::Preflighted,
            DeploymentPhase::Staged,
            DeploymentPhase::Checkpointed,
            DeploymentPhase::ProvisionalIntent,
            DeploymentPhase::AwaitingVerification,
            DeploymentPhase::ConfirmIntent,
            DeploymentPhase::Confirmed,
            DeploymentPhase::RollingBack,
            DeploymentPhase::RolledBack,
            DeploymentPhase::Uncertain,
        ];
        let mut i: usize = 0;
        while i < 11
            invariant
                i <= 11,
                all@ == seq![
                    DeploymentPhase::Prepared,
                    DeploymentPhase::Preflighted,
                    DeploymentPhase::Staged,
                    DeploymentPhase::Checkpointed,
                    DeploymentPhase::ProvisionalIntent,
                    DeploymentPhase::AwaitingVerification,
                    DeploymentPhase::ConfirmIntent,
                    DeploymentPhase::Confirmed,
                    DeploymentPhase::RollingBack,
                    DeploymentPhase::RolledBack,
                    DeploymentPhase::Uncertain,
                ],
                forall|j: int| 0 <= j < i ==> phase_name(#[trigger] all@[j]) != v@,
            decreases 11 - i,
        {
            if crate::text::str_eq(all[i].as_str(), v) {
                return Ok(all[i]);
            }
            i = i + 1;
        }
        proof {
            assert forall|p: DeploymentPhase| phase_name(p) != v@ by {
                match p {
                    DeploymentPhase::Prepared => assert(phase_name(all@[0]) != v@),
                    DeploymentPhase::Preflighted => assert(phase_name(all@[1]) != v@),
                    DeploymentPhase::Staged => assert(phase_name(all@[2]) != v@),
                    DeploymentPhase::Checkpointed => assert(phase_name(all@[3]) != v@),
                    DeploymentPhase::ProvisionalIntent => assert(phase_name(all@[4]) != v@),
                    DeploymentPhase::AwaitingVerification => assert(phase_name(all@[5]) != v@),
                    DeploymentPhase::ConfirmIntent => assert(phase_name(all@[6]) != v@),
                    DeploymentPhase::Confirmed => assert(phase_name(all@[7]) != v@),
                    DeploymentPhase::RollingBack => assert(phase_name(all@[8]) != v@),
                    DeploymentPhase::RolledBack => assert(phase_name(all@[9]) != v@),
                    DeploymentPhase::Uncertain => assert(phase_name(all@[10]) != v@),
                }
            }
        }
        Err(JournalError::CorruptState)
    }

    /// Only successful forward progress makes an earlier delivered step a no-op.
    pub fn completed_step(self, step: DeploymentPhase) -> (r: bool)
        ensures
            r == (forward_rank(self) >= forward_rank(step)),
    {
        rank(self) >= rank(step)
    }
}

fn rank(p: DeploymentPhase) -> (r: i8)
    ensures
        r == forward_rank(p),
{
    match p {
        DeploymentPhase::Prepared => 0,
        DeploymentPhase::Preflighted => 1,
        DeploymentPhase::Staged => 2,
        DeploymentPhase::Checkpointed => 3,
        DeploymentPhase::ProvisionalIntent => 4,
        DeploymentPhase::AwaitingVerification => 5,
        DeploymentPhase::ConfirmIntent => 6,
        DeploymentPhase::Confirmed => 7,
        _ => -1,
    }
}

/// Law: every phase's stored name reads back as that phase, and no two
/// phases share a name.
pub proof fn lemma_phase_names_distinct(p: DeploymentPhase, q: DeploymentPhase)
    ensures
        phase_name(p) == phase_name(q) ==> p == q,
{
    reveal_strlit("prepared");
    reveal_strlit("preflighted");
    reveal_strlit("staged");
    reveal_strlit("checkpointed");
    reveal_strlit("provisional_intent");
    reveal_strlit("awaiting_verification");
    reveal_strlit("confirm_intent");
    reveal_strlit("confirmed");
    reveal_strlit("rolling_back");
    reveal_strlit("rolled_back");
    reveal_strlit("uncertain");
    if phase_name(p) == phase_name(q) && p != q {
        assert(phase_name(p).len() != phase_name(q).len() || exists|i: int| 0 <= i < phase_name(p).len() && phase_name(p)[i] != phase_name(q)[i]) by {
            match (p, q) {
                _ => {
                    if phase_name(p).len() == phase_name(q).len() {
                        assert(phase_name(p)[0] != phase_name(q)[0] || phase_name(p)[1] != phase_name(q)[1]
                            || phase_name(p)[2] != phase_name(q)[2] || phase_name(p)[5] != phase_name(q)[5]);
                    }
                },
            }
        }
    }
}

#[derive(Debug, Clone, PartialEq, Eq)]
pub struct DeploymentStatus {
    pub request: DeploymentRequest,
    pub checkpoint_digest: String,
    pub phase: DeploymentPhase,
    pub expires_at_ms: u64,
    pub verification_rounds: u32,
    pub intent_marker: bool,
    pub provisional_started_at_ms: Option<u64>,
}

/// The interval committed before a provisional apply. A native backend must
/// arm its timed apply with the remaining time before its first live effect.
#[derive(Debug, Clone, Copy, PartialEq, Eq, Structural)]
pub struct ApplyWindow {
    pub started_at_ms: u64,
    pub deadline_ms: u64,
}

#[derive(Debug, Clone, PartialEq, Eq)]
pub enum BackendDisposition {
    AppliedOrUnknown,
    /// Definitively provisional, with no backend confirmation.
    Provisional,
    AlreadyRolledBack,
    Confirmed { checkpoint_digest: String },
}

#[derive(Debug, Clone, PartialEq, Eq)]
pub struct CheckpointReceipt {
    pub restore_artifact_digest: String,
}

/// A call of the backend, with the arguments it was handed.
pub enum BackendCall {
    Reconcile(Seq<char>),
    Preflight(Seq<char>),
    Stage(Seq<char>),
    Checkpoint(Seq<char>),
    Discard(Seq<char>),
    Apply(Seq<char>, Seq<char>, ApplyWindow),
    Confirm(Seq<char>, Seq<char>, u64),
    Rollback(Seq<char>, Seq<char>),
}

/// The device's effects. Implementations must make preflight, stage,
/// checkpoint, discard and rollback idempotent by deployment ID (replies can
/// be lost), keep the restore artifact until a terminal outcome is known,
/// and never re-enter the journal. A failure is reported as text. Each
/// method appends the call it received, with its arguments, to `calls`.
pub trait ApplyBackend {
    /// The calls received so far, oldest first. An implementation defines
    /// its own record; none is assumed here.
    closed spec fn calls(&self) -> Seq<BackendCall> {
        vstd::pervasive::arbitrary()
    }

    /// Read only: never reapply. `Confirmed` must be an authoritative
    /// observation bound to the exact restore receipt.
    fn reconcile(&mut self, deployment_id: &str) -> (r: Result<BackendDisposition, String>)
        ensures
            final(self).calls() == old(self).calls().push(BackendCall::Reconcile(deployment_id@));

    fn preflight(&mut self, deployment_id: &str) -> (r: Result<(), String>)
        ensures
            final(self).calls() == old(self).calls().push(BackendCall::Preflight(deployment_id@));

    fn stage(&mut self, deployment_id: &str) -> (r: Result<(), String>)
        ensures
            final(self).calls() == old(self).calls().push(BackendCall::Stage(deployment_id@));

    /// Make the restore artifact durable before returning a stable receipt.
    fn durable_checkpoint(&mut self, deployment_id: &str) -> (r: Result<CheckpointReceipt, String>)
        ensures
            final(self).calls() == old(self).calls().push(BackendCall::Checkpoint(deployment_id@));

    /// Discard session staging only; never modify live configuration.
    fn discard_staging(&mut self, deployment_id: &str) -> (r: Result<(), String>)
        ensures
            final(self).calls() == old(self).calls().push(BackendCall::Discard(deployment_id@));

    /// Arm a timed apply for the remaining window before the first live effect.
    fn provisional_apply(&mut self, deployment_id: &str, plan_digest: &str, window: ApplyWindow) -> (r: Result<(), String>)
        ensures
            final(self).calls() == old(self).calls().push(BackendCall::Apply(deployment_id@, plan_digest@, window));

    /// Confirm before this exclusive authorization expiry.
    fn confirm(&mut self, deployment_id: &str, checkpoint_digest: &str, authorization_expires_at_ms: u64) -> (r: Result<(), String>)
        ensures
            final(self).calls() == old(self).calls().push(
                BackendCall::Confirm(deployment_id@, checkpoint_digest@, authorization_expires_at_ms),
            );

    fn rollback(&mut self, deployment_id: &str, checkpoint_digest: &str) -> (r: Result<(), String>)
        ensures
            final(self).calls() == old(self).calls().push(BackendCall::Rollback(deployment_id@, checkpoint_digest@));
}

pub open spec fn request_valid(r: DeploymentRequest) -> bool {
    &&& r.deployment_id@.len() > 0
    &&& r.plan_id@.len() > 0
    &&& r.plan_digest@.len() > 0
    &&& r.owned_baseline_digest@.len() > 0
    &&& r.revision.id@.len() > 0
    &&& r.revision.source_digest@.len() > 0
    &&& r.device.device_id@.len() > 0
    &&& r.device.profile_digest@.len() > 0
    &&& r.owned_baseline@.len() > 0
    &&& r.confirmation_window_ms != Some(0u64)
}

pub fn validate_request(r: &DeploymentRequest) -> (res: Result<(), JournalError>)
    ensures
        res is Ok <==> request_valid(*r),
        res matches Err(e) ==> e matches JournalError::Invalid(_),
{
    if str_empty(&r.deployment_id) || str_empty(&r.plan_id) || str_empty(&r.plan_digest)
        || str_empty(&r.owned_baseline_digest) || str_empty(&r.revision.id) || str_empty(&r.revision.source_digest)
        || str_empty(&r.device.device_id) || str_empty(&r.device.profile_digest) || r.owned_baseline.len() == 0 {
        return Err(JournalError::Invalid("missing immutable deployment binding"));
    }
    if r.confirmation_window_ms == Some(0u64) {
        return Err(JournalError::Invalid("zero confirmation window"));
    }
    Ok(())
}

/// The apply window opened at `now_ms`: the request's confirmation window
/// (three minutes by default), ending no later than the largest signed
/// 64-bit timestamp.
pub open spec fn window_deadline(r: DeploymentRequest, now_ms: u64) -> Option<u64> {
    let w = match r.confirmation_window_ms {
        Some(w) => w,
        None => DEFAULT_CONFIRMATION_WINDOW_MS,
    };
    if now_ms + w <= i64::MAX { Some((now_ms + w) as u64) } else { None }
}

fn apply_deadline(r: &DeploymentRequest, now_ms: u64) -> (d: Option<u64>)
    ensures
        d == window_deadline(*r, now_ms),
{
    let w = match r.confirmation_window_ms {
        Some(w) => w,
        None => DEFAULT_CONFIRMATION_WINDOW_MS,
    };
    match now_ms.checked_add(w) {
        Some(v) => if v <= 0x7fff_ffff_ffff_ffffu64 { Some(v) } else { None },
        None => None,
    }
}

/// Phase `b` may follow phase `a`: forward along the successful path, to
/// `Uncertain` up to an apply attempt, or from any unfinished phase into rollback.
pub open spec fn may_follow(a: DeploymentPhase, b: DeploymentPhase) -> bool {
    ||| a == b
    ||| (0 <= forward_rank(a) && forward_rank(a) < forward_rank(b))
    ||| (0 <= forward_rank(a) && forward_rank(a) <= 4 && b == DeploymentPhase::Uncertain)
    ||| (!finished(a) && (b == DeploymentPhase::RollingBack || b == DeploymentPhase::RolledBack))
}

/// Law: phase succession composes.
pub proof fn lemma_may_follow_transitive(a: DeploymentPhase, b: DeploymentPhase, c: DeploymentPhase)
    requires
        may_follow(a, b),
        may_follow(b, c),
    ensures
        may_follow(a, c),
{
}

/// Law: once a provisional apply was attempted, the deployment never returns
/// to a phase from which the apply could be issued again.
pub proof fn lemma_apply_never_repeated(a: DeploymentPhase, b: DeploymentPhase)
    requires
        may_follow(a, b),
        forward_rank(a) >= 4 || a == DeploymentPhase::Uncertain || a == DeploymentPhase::RollingBack
            || a == DeploymentPhase::RolledBack,
    ensures
        b != DeploymentPhase::Checkpointed,
        forward_rank(b) >= 4 || b == DeploymentPhase::Uncertain || b == DeploymentPhase::RollingBack
            || b == DeploymentPhase::RolledBack,
{
}

/// Law: finished deployments stay finished and unchanged in phase.
pub proof fn lemma_finished_is_final(a: DeploymentPhase, b: DeploymentPhase)
    requires
        may_follow(a, b),
        finished(a),
    ensures
        a == b,
{
}

struct ConfirmationProof {
    checkpoint_digest: String,
    proof_digest: String,
    confirmed_at_ms: u64,
    accepted_at_ms: u64,
    expires_at_ms: u64,
    provisional_started_at_ms: u64,
    deadline_ms: u64,
}

struct DeploymentRecord {
    status: DeploymentStatus,
    proof: Option<ConfirmationProof>,
}

struct DeviceFence {
    device_id: String,
    fence: u64,
    epoch: u64,
    profile_digest: String,
}

/// Deployments and the per-device fencing record (generation, plan epoch,
/// profile digest) they are bound to.
pub struct DeploymentJournal {
    records: Vec<DeploymentRecord>,
    fences: Vec<DeviceFence>,
}

pub open spec fn status_id(s: DeploymentStatus) -> Seq<char> {
    s.request.deployment_id@
}

pub open spec fn status_device(s: DeploymentStatus) -> Seq<char> {
    s.request.device.device_id@
}

/// At most one unfinished deployment per device, and deployment IDs are unique.
pub open spec fn journal_consistent(ds: Seq<DeploymentStatus>) -> bool {
    &&& forall|i: int, j: int| 0 <= i < j < ds.len() ==> status_id(#[trigger] ds[i]) != status_id(#[trigger] ds[j])
    &&& forall|i: int, j: int| 0 <= i < j < ds.len() && !finished(ds[i].phase) && !finished(ds[j].phase)
        ==> status_device(#[trigger] ds[i]) != status_device(#[trigger] ds[j])
}

/// Every existing deployment keeps its request and moves only to a phase that may follow.
pub open spec fn advanced(old: Seq<DeploymentStatus>, new: Seq<DeploymentStatus>) -> bool {
    &&& old.len() <= new.len()
    &&& forall|i: int| 0 <= i < old.len() ==> (#[trigger] new[i]).request == old[i].request && may_follow(old[i].phase, new[i].phase)
}

pub struct FenceView {
    pub device_id: Seq<char>,
    pub fence: u64,
    pub epoch: u64,
    pub profile_digest: Seq<char>,
}

pub open spec fn fence_for(fs: Seq<FenceView>, device: Seq<char>) -> Option<FenceView> {
    if exists|k: int| 0 <= k < fs.len() && (#[trigger] fs[k]).device_id == device {
        Some(fs[choose|k: int| 0 <= k < fs.len() && (#[trigger] fs[k]).device_id == device])
    } else {
        None
    }
}

/// The request's binding matches the device's current fencing record.
pub open spec fn binding_current(fs: Seq<FenceView>, r: DeploymentRequest) -> bool {
    fence_for(fs, r.device.device_id@) == Some(FenceView {
        device_id: r.device.device_id@,
        fence: r.device.fencing_generation,
        epoch: r.plan_epoch,
        profile_digest: r.device.profile_digest@,
    })
}

/// A new request whose generation or epoch regresses, or which keeps the
/// generation but changes the profile, is stale.
pub open spec fn binding_stale(f: FenceView, r: DeploymentRequest) -> bool {
    r.device.fencing_generation < f.fence || r.plan_epoch < f.epoch
        || (r.device.fencing_generation == f.fence && r.device.profile_digest@ != f.profile_digest)
}

/// Fences never move backward in generation or epoch.
pub open spec fn fences_monotonic(old: Seq<FenceView>, new: Seq<FenceView>) -> bool {
    forall|d: Seq<char>| #[trigger] fence_for(old, d) is Some ==> {
        &&& fence_for(new, d) is Some
        &&& fence_for(new, d)->0.fence >= fence_for(old, d)->0.fence
        &&& fence_for(new, d)->0.epoch >= fence_for(old, d)->0.epoch
    }
}

spec fn view_fence(f: DeviceFence) -> FenceView {
    FenceView { device_id: f.device_id@, fence: f.fence, epoch: f.epoch, profile_digest: f.profile_digest@ }
}

impl DeploymentJournal {
    pub closed spec fn deployments(&self) -> Seq<DeploymentStatus> {
        self.records@.map_values(|r: DeploymentRecord| r.status)
    }

    pub closed spec fn fences(&self) -> Seq<FenceView> {
        self.fences@.map_values(|f: DeviceFence| view_fence(f))
    }

    #[verifier::type_invariant]
    closed spec fn well_formed(self) -> bool {
        &&& journal_consistent(self.deployments())
        &&& forall|i: int, j: int| 0 <= i < j < self.fences@.len() ==> (#[trigger] self.fences@[i]).device_id@ != (#[trigger] self.fences@[j]).device_id@
    }

    /// An empty journal.
    pub fn new() -> (r: DeploymentJournal)
        ensures
            r.deployments().len() == 0,
            r.fences().len() == 0,
    {
        let r = DeploymentJournal { records: Vec::new(), fences: Vec::new() };
        assert(r.deployments() =~= Seq::<DeploymentStatus>::empty());
        r
    }
}

pub open spec fn phase_of(ds: Seq<DeploymentStatus>, id: Seq<char>) -> Option<DeploymentPhase> {
    if exists|i: int| 0 <= i < ds.len() && status_id(#[trigger] ds[i]) == id {
        Some(ds[choose|i: int| 0 <= i < ds.len() && status_id(#[trigger] ds[i]) == id].phase)
    } else {
        None
    }
}

pub open spec fn opt_view(o: Option<String>) -> Option<Seq<char>> {
    match o {
        Some(s) => Some(s@),
        None => None,
    }
}

pub open spec fn baseline_view(f: OwnedBaselineField) -> (Seq<char>, Seq<char>, Seq<char>, Option<Seq<char>>, Option<Seq<char>>) {
    (f.package@, f.section@, f.field@, opt_view(f.value_digest), opt_view(f.secret_reference))
}

/// Two requests carry the same immutable contents.
pub open spec fn same_request(a: DeploymentRequest, b: DeploymentRequest) -> bool {
    &&& a.deployment_id@ == b.deployment_id@
    &&& a.device@ == b.device@
    &&& a.plan_epoch == b.plan_epoch
    &&& a.revision@ == b.revision@
    &&& a.plan_id@ == b.plan_id@
    &&& a.plan_digest@ == b.plan_digest@
    &&& a.graph_version == b.graph_version
    &&& a.owned_baseline_digest@ == b.owned_baseline_digest@
    &&& a.owned_baseline@.map_values(|f: OwnedBaselineField| baseline_view(f)) == b.owned_baseline@.map_values(|f: OwnedBaselineField| baseline_view(f))
    &&& a.confirmation_window_ms == b.confirmation_window_ms
}

fn opt_string_same(a: &Option<String>, b: &Option<String>) -> (r: bool)
    ensures
        r == (opt_view(*a) == opt_view(*b)),
{
    match (a, b) {
        (Some(p), Some(q)) => *p == *q,
        (None, None) => true,
        _ => false,
    }
}

fn requests_same(a: &DeploymentRequest, b: &DeploymentRequest) -> (r: bool)
    ensures
        r == same_request(*a, *b),
{
    let ghost av = a.owned_baseline@.map_values(|f: OwnedBaselineField| baseline_view(f));
    let ghost bv = b.owned_baseline@.map_values(|f: OwnedBaselineField| baseline_view(f));
    let same_fields = a.deployment_id == b.deployment_id && a.device.same(&b.device) && a.plan_epoch == b.plan_epoch
        && a.revision.same(&b.revision) && a.plan_id == b.plan_id && a.plan_digest == b.plan_digest
        && a.graph_version == b.graph_version && a.owned_baseline_digest == b.owned_baseline_digest
        && a.confirmation_window_ms == b.confirmation_window_ms && a.owned_baseline.len() == b.owned_baseline.len();
    if !same_fields {
        proof {
            if same_request(*a, *b) {
                assert(av.len() == bv.len());
            }
        }
        return false;
    }
    let mut i: usize = 0;
    while i < a.owned_baseline.len()
        invariant
            a.owned_baseline@.len() == b.owned_baseline@.len(),
            av == a.owned_baseline@.map_values(|f: OwnedBaselineField| baseline_view(f)),
            bv == b.owned_baseline@.map_values(|f: OwnedBaselineField| baseline_view(f)),
            i <= a.owned_baseline@.len(),
            forall|j: int| 0 <= j < i ==> av[j] == bv[j],
        decreases a.owned_baseline@.len() - i,
    {
        let x = &a.owned_baseline[i];
        let y = &b.owned_baseline[i];
        if !(x.package == y.package && x.section == y.section && x.field == y.field
            && opt_string_same(&x.value_digest, &y.value_digest) && opt_string_same(&x.secret_reference, &y.secret_reference)) {
            proof {
                if av == bv {
                    assert(av[i as int] == bv[i as int]);
                }
            }
            return false;
        }
        i = i + 1;
    }
    assert(av =~= bv);
    true
}

pub open spec fn same_status(a: DeploymentStatus, b: DeploymentStatus) -> bool {
    &&& same_request(a.request, b.request)
    &&& a.checkpoint_digest@ == b.checkpoint_digest@
    &&& a.phase == b.phase
    &&& a.expires_at_ms == b.expires_at_ms
    &&& a.verification_rounds == b.verification_rounds
    &&& a.intent_marker == b.intent_marker
    &&& a.provisional_started_at_ms == b.provisional_started_at_ms
}

fn duplicate_baseline(v: &Vec<OwnedBaselineField>) -> (r: Vec<OwnedBaselineField>)
    ensures
        r@.map_values(|f: OwnedBaselineField| baseline_view(f)) == v@.map_values(|f: OwnedBaselineField| baseline_view(f)),
{
    let mut out: Vec<OwnedBaselineField> = Vec::new();
    let mut i: usize = 0;
    while i < v.len()
        invariant
            i <= v@.len(),
            out@.len() == i,
            forall|j: int| 0 <= j < i ==> baseline_view(#[trigger] out@[j]) == baseline_view(v@[j]),
        decreases v@.len() - i,
    {
        let f = &v[i];
        out.push(OwnedBaselineField {
            package: f.package.clone(),
            section: f.section.clone(),
            field: f.field.clone(),
            value_digest: match &f.value_digest {
                Some(d) => Some(d.clone()),
                None => None,
            },
            secret_reference: match &f.secret_reference {
                Some(d) => Some(d.clone()),
                None => None,
            },
        });
        i = i + 1;
    }
    assert(out@.map_values(|f: OwnedBaselineField| baseline_view(f)) =~= v@.map_values(|f: OwnedBaselineField| baseline_view(f)));
    out
}

impl DeploymentRequest {
    pub fn duplicate(&self) -> (r: DeploymentRequest)
        ensures
            same_request(r, *self),
    {
        DeploymentRequest {
            deployment_id: self.deployment_id.clone(),
            device: self.device.duplicate(),
            plan_epoch: self.plan_epoch,
            revision: self.revision.duplicate(),
            plan_id: self.plan_id.clone(),
            plan_digest: self.plan_digest.clone(),
            graph_version: self.graph_version,
            owned_baseline_digest: self.owned_baseline_digest.clone(),
            owned_baseline: duplicate_baseline(&self.owned_baseline),
            confirmation_window_ms: self.confirmation_window_ms,
        }
    }
}

impl DeploymentStatus {
    pub fn duplicate(&self) -> (r: DeploymentStatus)
        ensures
            same_status(r, *self),
    {
        DeploymentStatus {
            request: self.request.duplicate(),
            checkpoint_digest: self.checkpoint_digest.clone(),
            phase: self.phase,
            expires_at_ms: self.expires_at_ms,
            verification_rounds: self.verification_rounds,
            intent_marker: self.intent_marker,
            provisional_started_at_ms: self.provisional_started_at_ms,
        }
    }
}

impl DeploymentJournal {
    fn find(&self, id: &str) -> (r: Option<usize>)
        ensures
            match r {
                Some(i) => i < self.deployments().len() && status_id(self.deployments()[i as int]) == id@,
                None => forall|i: int| 0 <= i < self.deployments().len() ==> status_id(#[trigger] self.deployments()[i]) != id@,
            },
    {
        let mut i: usize = 0;
        while i < self.records.len()
            invariant
                i <= self.records@.len(),
                forall|k: int| 0 <= k < i ==> status_id(#[trigger] self.deployments()[k]) != id@,
            decreases self.records@.len() - i,
        {
            assert(self.deployments()[i as int] == self.records@[i as int].status);
            if crate::text::str_eq(self.records[i].status.request.deployment_id.as_str(), id) {
                return Some(i);
            }
            i = i + 1;
        }
        None
    }

    fn fence_index(&self, device: &String) -> (r: Option<usize>)
        ensures
            match r {
                Some(k) => k < self.fences().len() && self.fences()[k as int].device_id == device@
                    && fence_for(self.fences(), device@) == Some(self.fences()[k as int]),
                None => fence_for(self.fences(), device@) is None,
            },
    {
        proof {
            use_type_invariant(self);
        }
        let ghost fs = self.fences();
        let mut k: usize = 0;
        while k < self.fences.len()
            invariant
                fs == self.fences(),
                k <= self.fences@.len(),
                forall|j: int| 0 <= j < k ==> (#[trigger] fs[j]).device_id != device@,
            decreases self.fences@.len() - k,
        {
            assert(fs[k as int] == view_fence(self.fences@[k as int]));
            if self.fences[k].device_id == *device {
                proof {
                    use_type_invariant(self);
                    let c = choose|c: int| 0 <= c < fs.len() && (#[trigger] fs[c]).device_id == device@;
                    if c != k {
                        if c < k {
                            assert(self.fences@[c].device_id@ != self.fences@[k as int].device_id@);
                        } else {
                            assert(self.fences@[k as int].device_id@ != self.fences@[c].device_id@);
                        }
                    }
                }
                return Some(k);
            }
            k = k + 1;
        }
        None
    }

    /// The position of a deployment whose binding is still current.
    fn bound(&self, id: &str) -> (r: Result<usize, JournalError>)
        ensures
            match r {
                Ok(i) => i < self.deployments().len() && status_id(self.deployments()[i as int]) == id@
                    && binding_current(self.fences(), self.deployments()[i as int].request),
                Err(e) => (e == JournalError::UnknownDeployment && phase_of(self.deployments(), id@) is None)
                    || (e == JournalError::StaleBinding && exists|i: int| 0 <= i < self.deployments().len()
                        && status_id(#[trigger] self.deployments()[i]) == id@ && !binding_current(self.fences(), self.deployments()[i].request)),
            },
            match r {
                Ok(i) => bound_spec(self.deployments(), self.fences(), id@) == Ok::<int, JournalError>(i as int),
                Err(e) => bound_spec(self.deployments(), self.fences(), id@) == Err::<int, JournalError>(e),
            },
    {
        proof {
            use_type_invariant(self);
        }
        let i = match self.find(id) {
            Some(i) => i,
            None => {
                return Err(JournalError::UnknownDeployment);
            },
        };
        let ghost ds = self.deployments();
        proof {
            lemma_index_of(ds, i as int);
        }
        assert(ds[i as int] == self.records@[i as int].status);
        let req = &self.records[i].status.request;
        let current = match self.fence_index(&req.device.device_id) {
            Some(k) => {
                let f = &self.fences[k];
                f.fence == req.device.fencing_generation && f.epoch == req.plan_epoch && f.profile_digest == req.device.profile_digest
            },
            None => false,
        };
        if !current {
            return Err(JournalError::StaleBinding);
        }
        Ok(i)
    }

    /// Replaces the status of deployment `i`, which keeps its request and
    /// moves to a phase that may follow.
    fn replace_status(&mut self, i: usize, st: DeploymentStatus)
        requires
            i < old(self).deployments().len(),
            st.request == old(self).deployments()[i as int].request,
            may_follow(old(self).deployments()[i as int].phase, st.phase),
            !finished(old(self).deployments()[i as int].phase) || st.phase == old(self).deployments()[i as int].phase,
        ensures
            final(self).deployments() == old(self).deployments().update(i as int, st),
            final(self).fences() == old(self).fences(),
    {
        proof {
            use_type_invariant(&*self);
        }
        let ghost before = self.deployments();
        let mut recs: Vec<DeploymentRecord> = Vec::new();
        std::mem::swap(&mut recs, &mut self.records);
        assert(self.deployments() =~= Seq::<DeploymentStatus>::empty());
        let rec = recs.remove(i);
        recs.insert(i, DeploymentRecord { status: st, proof: rec.proof });
        let ghost after = recs@.map_values(|r: DeploymentRecord| r.status);
        assert(after =~= before.update(i as int, st));
        proof {
            assert forall|a: int, b: int| 0 <= a < b < after.len() && !finished(after[a].phase) && !finished(after[b].phase)
                implies status_device(#[trigger] after[a]) != status_device(#[trigger] after[b]) by {
                assert(!finished(before[a].phase) && !finished(before[b].phase));
            }
        }
        self.records = recs;
    }
}

pub open spec fn fences_unique(fs: Seq<FenceView>) -> bool {
    forall|i: int, j: int| 0 <= i < j < fs.len() ==> (#[trigger] fs[i]).device_id != (#[trigger] fs[j]).device_id
}

proof fn lemma_fence_for_at(fs: Seq<FenceView>, k: int)
    requires
        fences_unique(fs),
        0 <= k < fs.len(),
    ensures
        fence_for(fs, fs[k].device_id) == Some(fs[k]),
{
    let d = fs[k].device_id;
    let c = choose|c: int| 0 <= c < fs.len() && (#[trigger] fs[c]).device_id == d;
    if c < k {
        assert(fs[c].device_id != fs[k].device_id);
    } else if k < c {
        assert(fs[k].device_id != fs[c].device_id);
    }
}

impl DeploymentJournal {
    proof fn lemma_fences_unique(&self)
        requires
            forall|i: int, j: int| 0 <= i < j < self.fences@.len() ==> (#[trigger] self.fences@[i]).device_id@ != (#[trigger] self.fences@[j]).device_id@,
        ensures
            fences_unique(self.fences()),
    {
        assert forall|i: int, j: int| 0 <= i < j < self.fences().len() implies (#[trigger] self.fences()[i]).device_id != (#[trigger] self.fences()[j]).device_id by {
            assert(self.fences()[i] == view_fence(self.fences@[i]));
            assert(self.fences()[j] == view_fence(self.fences@[j]));
        }
    }

    /// Records a deployment in `Prepared` and advances the device's fence to
    /// the request's binding. Re-preparing the same request returns its
    /// current status; reusing an ID with other contents, preparing while
    /// another deployment for the device is unfinished, or regressing the
    /// device's fence is refused.
    #[verifier::rlimit(40)]
    pub fn prepare(&mut self, request: &DeploymentRequest, now_ms: u64) -> (r: Result<DeploymentStatus, JournalError>)
        ensures
            journal_consistent(final(self).deployments()),
            advanced(old(self).deployments(), final(self).deployments()),
            fences_monotonic(old(self).fences(), final(self).fences()),
            !request_valid(*request) ==> (r matches Err(JournalError::Invalid(_))),
            r matches Err(JournalError::ConflictingDeployment) ==> exists|i: int| 0 <= i < old(self).deployments().len()
                && status_id(#[trigger] old(self).deployments()[i]) == request.deployment_id@
                && !same_request(old(self).deployments()[i].request, *request),
            r matches Err(JournalError::ActiveDeployment) ==> exists|i: int| 0 <= i < old(self).deployments().len()
                && !finished(#[trigger] old(self).deployments()[i].phase)
                && status_device(old(self).deployments()[i]) == request.device.device_id@,
            r is Err ==> final(self).deployments() == old(self).deployments() && final(self).fences() == old(self).fences(),
            r matches Ok(st) ==> same_request(st.request, *request) && binding_current(final(self).fences(), st.request)
                && exists|i: int| 0 <= i < final(self).deployments().len() && status_id(#[trigger] final(self).deployments()[i]) == request.deployment_id@
                    && same_status(st, final(self).deployments()[i]),
            phase_of(old(self).deployments(), request.deployment_id@) is None ==> (r matches Ok(st) ==> st.phase == DeploymentPhase::Prepared
                && st.checkpoint_digest@.len() == 0 && !st.intent_marker),
            ({
                let v = old(self).deployments();
                let id = request.deployment_id@;
                let i = index_of(v, id);
                if !request_valid(*request) {
                    r matches Err(JournalError::Invalid(_))
                } else if phase_of(v, id) is Some {
                    if !same_request(v[i].request, *request) {
                        r == Err::<DeploymentStatus, JournalError>(JournalError::ConflictingDeployment)
                    } else {
                        match bound_spec(v, old(self).fences(), id) {
                            Err(e) => r == Err::<DeploymentStatus, JournalError>(e),
                            Ok(_) => r matches Ok(st) && same_status(st, v[i]) && final(self).deployments() == v
                                && final(self).fences() == old(self).fences(),
                        }
                    }
                } else if exists|k: int| 0 <= k < v.len() && !finished(#[trigger] v[k].phase) && status_device(v[k])
                    == request.device.device_id@ {
                    r == Err::<DeploymentStatus, JournalError>(JournalError::ActiveDeployment)
                } else if fence_for(old(self).fences(), request.device.device_id@) matches Some(f) && binding_stale(f, *request) {
                    r == Err::<DeploymentStatus, JournalError>(JournalError::StaleBinding)
                } else {
                    &&& r matches Ok(st) && st.phase == DeploymentPhase::Prepared
                    &&& final(self).deployments().len() == v.len() + 1
                    &&& final(self).deployments().subrange(0, v.len() as int) == v
                    &&& same_request(final(self).deployments()[v.len() as int].request, *request)
                    &&& final(self).deployments()[v.len() as int].phase == DeploymentPhase::Prepared
                    &&& binding_current(final(self).fences(), *request)
                }
            }),
    {
        proof {
            use_type_invariant(&*self);
            self.lemma_fences_unique();
        }
        let ghost old_ds = self.deployments();
        let ghost old_fs = self.fences();
        match validate_request(request) {
            Err(e) => {
                return Err(e);
            },
            Ok(()) => {},
        }
        match self.find(request.deployment_id.as_str()) {
            Some(i) => {
                assert(old_ds[i as int] == self.records@[i as int].status);
                proof {
                    lemma_index_of(old_ds, i as int);
                }
                if !requests_same(&self.records[i].status.request, request) {
                    return Err(JournalError::ConflictingDeployment);
                }
                let j = match self.bound(request.deployment_id.as_str()) {
                    Ok(j) => j,
                    Err(e) => {
                        return Err(e);
                    },
                };
                assert(old_ds[j as int] == self.records@[j as int].status);
                proof {
                    if i != j {
                        if i < j {
                            assert(status_id(old_ds[i as int]) != status_id(old_ds[j as int]));
                        } else {
                            assert(status_id(old_ds[j as int]) != status_id(old_ds[i as int]));
                        }
                    }
                }
                let st = self.records[j].status.duplicate();
                return Ok(st);
            },
            None => {},
        }
        assert(phase_of(old_ds, request.deployment_id@) is None);
        let mut k: usize = 0;
        while k < self.records.len()
            invariant
                phase_of(old_ds, request.deployment_id@) is None,
                old_ds == self.deployments(),
                journal_consistent(old_ds),
                request_valid(*request),
                k <= old_ds.len(),
                forall|m: int| 0 <= m < k ==> finished(#[trigger] old_ds[m].phase) || status_device(old_ds[m]) != request.device.device_id@,
            decreases old_ds.len() - k,
        {
            assert(old_ds[k as int] == self.records@[k as int].status);
            let ph = self.records[k].status.phase;
            if !(ph == DeploymentPhase::Confirmed || ph == DeploymentPhase::RolledBack)
                && self.records[k].status.request.device.device_id == request.device.device_id {
                assert(!finished(old_ds[k as int].phase) && status_device(old_ds[k as int]) == request.device.device_id@);
                assert(phase_of(old_ds, request.deployment_id@) is None);
                return Err(JournalError::ActiveDeployment);
            }
            k = k + 1;
        }
        let fi = self.fence_index(&request.device.device_id);
        match fi {
            Some(f) => {
                let fence = &self.fences[f];
                assert(old_fs[f as int] == view_fence(self.fences@[f as int]));
                if request.device.fencing_generation < fence.fence || request.plan_epoch < fence.epoch
                    || (request.device.fencing_generation == fence.fence && request.device.profile_digest != fence.profile_digest) {
                    return Err(JournalError::StaleBinding);
                }
            },
            None => {},
        }
        let new_fence = DeviceFence {
            device_id: request.device.device_id.clone(),
            fence: request.device.fencing_generation,
            epoch: request.plan_epoch,
            profile_digest: request.device.profile_digest.clone(),
        };
        let mut fences: Vec<DeviceFence> = Vec::new();
        std::mem::swap(&mut fences, &mut self.fences);
        match fi {
            Some(f) => {
                fences.set(f, new_fence);
            },
            None => {
                fences.push(new_fence);
            },
        }
        let ghost new_fs = fences@.map_values(|f: DeviceFence| view_fence(f));
        proof {
            assert forall|a: int, b: int| 0 <= a < b < fences@.len() implies (#[trigger] fences@[a]).device_id@ != (#[trigger] fences@[b]).device_id@ by {
                assert(new_fs[a] == view_fence(fences@[a]) && new_fs[b] == view_fence(fences@[b]));
                if fi is Some {
                    let f = fi->0 as int;
                    if a != f && b != f {
                        assert(old_fs[a] == new_fs[a] && old_fs[b] == new_fs[b]);
                    } else if a == f {
                        assert(old_fs[b] == new_fs[b]);
                        assert(old_fs[a].device_id == new_fs[a].device_id);
                    } else {
                        assert(old_fs[a] == new_fs[a]);
                        assert(old_fs[b].device_id == new_fs[b].device_id);
                    }
                } else {
                    if b < old_fs.len() {
                        assert(old_fs[a] == new_fs[a] && old_fs[b] == new_fs[b]);
                    } else {
                        assert(old_fs[a] == new_fs[a]);
                        assert(old_fs[a].device_id != request.device.device_id@);
                    }
                }
            }
        }
        self.fences = fences;
        proof {
            self.lemma_fences_unique();
            let nfs = self.fences();
            assert(nfs == new_fs);
            assert forall|d: Seq<char>| #[trigger] fence_for(old_fs, d) is Some implies {
                &&& fence_for(nfs, d) is Some
                &&& fence_for(nfs, d)->0.fence >= fence_for(old_fs, d)->0.fence
                &&& fence_for(nfs, d)->0.epoch >= fence_for(old_fs, d)->0.epoch
            } by {
                let c = choose|c: int| 0 <= c < old_fs.len() && (#[trigger] old_fs[c]).device_id == d;
                lemma_fence_for_at(old_fs, c);
                lemma_fence_for_at(nfs, c);
            }
            let dk = if fi is Some { fi->0 as int } else { old_fs.len() as int };
            assert(nfs[dk].device_id == request.device.device_id@);
            lemma_fence_for_at(nfs, dk);
        }
        let status = DeploymentStatus {
            request: request.duplicate(),
            checkpoint_digest: String::new(),
            phase: DeploymentPhase::Prepared,
            expires_at_ms: 0x7fff_ffff_ffff_ffffu64,
            verification_rounds: 0,
            intent_marker: false,
            provisional_started_at_ms: None,
        };
        let out = status.duplicate();
        let mut recs: Vec<DeploymentRecord> = Vec::new();
        std::mem::swap(&mut recs, &mut self.records);
        assert(self.deployments() =~= Seq::<DeploymentStatus>::empty());
        recs.push(DeploymentRecord { status, proof: None });
        let ghost new_ds = recs@.map_values(|r: DeploymentRecord| r.status);
        proof {
            assert(new_ds =~= old_ds.push(new_ds[old_ds.len() as int]));
            assert forall|a: int, b: int| 0 <= a < b < new_ds.len() implies status_id(#[trigger] new_ds[a]) != status_id(#[trigger] new_ds[b]) by {
                if b == old_ds.len() {
                    assert(status_id(old_ds[a]) != request.deployment_id@);
                }
            }
            assert forall|a: int, b: int| 0 <= a < b < new_ds.len() && !finished(new_ds[a].phase) && !finished(new_ds[b].phase)
                implies status_device(#[trigger] new_ds[a]) != status_device(#[trigger] new_ds[b]) by {
                if b == old_ds.len() {
                    assert(finished(old_ds[a].phase) || status_device(old_ds[a]) != request.device.device_id@);
                }
            }
        }
        self.records = recs;
        assert(self.deployments() == new_ds);
        assert(same_status(out, self.deployments()[old_ds.len() as int]));
        Ok(out)
    }
}

/// What looking up a deployment whose binding must be current gives: its
/// position, `UnknownDeployment` when no deployment has the ID, or
/// `StaleBinding` when its binding is no longer the device's current one.
pub open spec fn bound_spec(ds: Seq<DeploymentStatus>, fs: Seq<FenceView>, id: Seq<char>) -> Result<int, JournalError> {
    if phase_of(ds, id) is None {
        Err(JournalError::UnknownDeployment)
    } else if !binding_current(fs, ds[index_of(ds, id)].request) {
        Err(JournalError::StaleBinding)
    } else {
        Ok(index_of(ds, id))
    }
}

/// What a forward step from `from` to `to` gives without the backend: the
/// lookup's error, success when the step was already reached, the wrong
/// phase when the deployment is not at `from`; `None` when the backend decides.
pub open spec fn step_decided(ds: Seq<DeploymentStatus>, fs: Seq<FenceView>, id: Seq<char>, from: DeploymentPhase, to: DeploymentPhase)
    -> Option<Result<(), JournalError>> {
    match bound_spec(ds, fs, id) {
        Err(e) => Some(Err(e)),
        Ok(i) => if forward_rank(ds[i].phase) >= forward_rank(to) {
            Some(Ok(()))
        } else if ds[i].phase != from {
            Some(Err(JournalError::WrongPhase(ds[i].phase)))
        } else {
            None
        },
    }
}

/// Law: a delivered retry of a step already reached, with the binding
/// still current, succeeds without the backend and changes nothing.
pub proof fn lemma_delivered_retry_is_noop(
    ds: Seq<DeploymentStatus>,
    fs: Seq<FenceView>,
    id: Seq<char>,
    from: DeploymentPhase,
    to: DeploymentPhase,
)
    requires
        reached(ds, id, to),
        binding_current(fs, ds[index_of(ds, id)].request),
    ensures
        step_decided(ds, fs, id, from, to) == Some(Ok::<(), JournalError>(())),
{
}

/// The position of the deployment with this ID.
pub open spec fn index_of(ds: Seq<DeploymentStatus>, id: Seq<char>) -> int {
    choose|i: int| 0 <= i < ds.len() && status_id(#[trigger] ds[i]) == id
}

proof fn lemma_index_of(ds: Seq<DeploymentStatus>, i: int)
    requires
        journal_consistent(ds),
        0 <= i < ds.len(),
    ensures
        index_of(ds, status_id(ds[i])) == i,
        phase_of(ds, status_id(ds[i])) == Some(ds[i].phase),
{
    let c = index_of(ds, status_id(ds[i]));
    if c < i {
        assert(status_id(ds[c]) != status_id(ds[i]));
    } else if i < c {
        assert(status_id(ds[i]) != status_id(ds[c]));
    }
}

/// The deployment's phase after a successful forward step has reached `step`.
pub open spec fn reached(ds: Seq<DeploymentStatus>, id: Seq<char>, step: DeploymentPhase) -> bool {
    phase_of(ds, id) matches Some(p) && forward_rank(p) >= forward_rank(step)
}

impl DeploymentJournal {
    fn set_phase(&mut self, i: usize, phase: DeploymentPhase)
        requires
            i < old(self).deployments().len(),
            may_follow(old(self).deployments()[i as int].phase, phase),
            !finished(old(self).deployments()[i as int].phase) || phase == old(self).deployments()[i as int].phase,
        ensures
            final(self).deployments() == old(self).deployments().update(i as int, DeploymentStatus { phase, ..old(self).deployments()[i as int] }),
            final(self).fences() == old(self).fences(),
            advanced(old(self).deployments(), final(self).deployments()),
    {
        proof {
            use_type_invariant(&*self);
        }
        let ghost before = self.deployments();
        let mut recs: Vec<DeploymentRecord> = Vec::new();
        std::mem::swap(&mut recs, &mut self.records);
        assert(self.deployments() =~= Seq::<DeploymentStatus>::empty());
        let mut rec = recs.remove(i);
        rec.status.phase = phase;
        recs.insert(i, rec);
        let ghost after = recs@.map_values(|r: DeploymentRecord| r.status);
        assert(after =~= before.update(i as int, DeploymentStatus { phase, ..before[i as int] }));
        proof {
            assert forall|a: int, b: int| 0 <= a < b < after.len() && !finished(after[a].phase) && !finished(after[b].phase)
                implies status_device(#[trigger] after[a]) != status_device(#[trigger] after[b]) by {
                assert(!finished(before[a].phase) && !finished(before[b].phase));
            }
            assert forall|a: int, b: int| 0 <= a < b < after.len() implies status_id(#[trigger] after[a]) != status_id(#[trigger] after[b]) by {
                assert(status_id(before[a]) != status_id(before[b]));
            }
        }
        self.records = recs;
    }

    /// Runs the backend's read-only preflight once; a delivered retry after
    /// success is a no-op.
    pub fn preflight<B: ApplyBackend>(&mut self, id: &str, backend: &mut B) -> (r: Result<(), JournalError>)
        ensures
            journal_consistent(final(self).deployments()),
            advanced(old(self).deployments(), final(self).deployments()),
            final(self).fences() == old(self).fences(),
            r is Ok ==> reached(final(self).deployments(), id@, DeploymentPhase::Preflighted),
            r is Ok && reached(old(self).deployments(), id@, DeploymentPhase::Preflighted) ==> final(self).deployments() == old(self).deployments(),
            r is Err ==> final(self).deployments() == old(self).deployments(),
            r matches Err(JournalError::WrongPhase(p)) ==> phase_of(old(self).deployments(), id@) == Some(p)
                && p != DeploymentPhase::Prepared && !reached(old(self).deployments(), id@, DeploymentPhase::Preflighted),
            match step_decided(old(self).deployments(), old(self).fences(), id@, DeploymentPhase::Prepared, DeploymentPhase::Preflighted) {
                Some(x) => r == x && final(self).deployments() == old(self).deployments() && final(backend).calls() == old(backend).calls(),
                None => final(backend).calls() == old(backend).calls().push(BackendCall::Preflight(id@)) && ((r is Ok && final(self).deployments()
                    == old(self).deployments().update(
                    index_of(old(self).deployments(), id@),
                    DeploymentStatus { phase: DeploymentPhase::Preflighted, ..old(self).deployments()[index_of(old(self).deployments(), id@)] },
                )) || (r matches Err(JournalError::Backend(_)) && final(self).deployments() == old(self).deployments())),
            },
    {
        self.forward_step(id, DeploymentPhase::Prepared, DeploymentPhase::Preflighted, backend)
    }

    /// Stages the session change once; a delivered retry after success is a no-op.
    pub fn stage<B: ApplyBackend>(&mut self, id: &str, backend: &mut B) -> (r: Result<(), JournalError>)
        ensures
            journal_consistent(final(self).deployments()),
            advanced(old(self).deployments(), final(self).deployments()),
            final(self).fences() == old(self).fences(),
            r is Ok ==> reached(final(self).deployments(), id@, DeploymentPhase::Staged),
            r is Ok && reached(old(self).deployments(), id@, DeploymentPhase::Staged) ==> final(self).deployments() == old(self).deployments(),
            r is Err ==> final(self).deployments() == old(self).deployments(),
            r matches Err(JournalError::WrongPhase(p)) ==> phase_of(old(self).deployments(), id@) == Some(p)
                && p != DeploymentPhase::Preflighted && !reached(old(self).deployments(), id@, DeploymentPhase::Staged),
            match step_decided(old(self).deployments(), old(self).fences(), id@, DeploymentPhase::Preflighted, DeploymentPhase::Staged) {
                Some(x) => r == x && final(self).deployments() == old(self).deployments() && final(backend).calls() == old(backend).calls(),
                None => final(backend).calls() == old(backend).calls().push(BackendCall::Stage(id@)) && ((r is Ok && final(self).deployments()
                    == old(self).deployments().update(
                    index_of(old(self).deployments(), id@),
                    DeploymentStatus { phase: DeploymentPhase::Staged, ..old(self).deployments()[index_of(old(self).deployments(), id@)] },
                )) || (r matches Err(JournalError::Backend(_)) && final(self).deployments() == old(self).deployments())),
            },
    {
        self.forward_step(id, DeploymentPhase::Preflighted, DeploymentPhase::Staged, backend)
    }

    fn forward_step<B: ApplyBackend>(&mut self, id: &str, from: DeploymentPhase, to: DeploymentPhase, backend: &mut B) -> (r: Result<(), JournalError>)
        requires
            (from == DeploymentPhase::Prepared && to == DeploymentPhase::Preflighted)
                || (from == DeploymentPhase::Preflighted && to == DeploymentPhase::Staged),
        ensures
            journal_consistent(final(self).deployments()),
            advanced(old(self).deployments(), final(self).deployments()),
            final(self).fences() == old(self).fences(),
            r is Ok ==> reached(final(self).deployments(), id@, to),
            r is Ok && reached(old(self).deployments(), id@, to) ==> final(self).deployments() == old(self).deployments(),
            r is Err ==> final(self).deployments() == old(self).deployments(),
            r matches Err(JournalError::WrongPhase(p)) ==> phase_of(old(self).deployments(), id@) == Some(p)
                && p != from && !reached(old(self).deployments(), id@, to),
            match step_decided(old(self).deployments(), old(self).fences(), id@, from, to) {
                Some(x) => r == x && final(self).deployments() == old(self).deployments() && final(backend).calls() == old(backend).calls(),
                None => final(backend).calls() == old(backend).calls().push(if to == DeploymentPhase::Preflighted { BackendCall::Preflight(id@) } else { BackendCall::Stage(id@) }) && ((r is Ok && final(self).deployments()
                    == old(self).deployments().update(
                    index_of(old(self).deployments(), id@),
                    DeploymentStatus { phase: to, ..old(self).deployments()[index_of(old(self).deployments(), id@)] },
                )) || (r matches Err(JournalError::Backend(_)) && final(self).deployments() == old(self).deployments())),
            },
    {
        proof {
            use_type_invariant(&*self);
        }
        let ghost ds = self.deployments();
        let i = match self.bound(id) {
            Ok(i) => i,
            Err(e) => {
                return Err(e);
            },
        };
        proof {
            lemma_index_of(ds, i as int);
        }
        assert(ds[i as int] == self.records@[i as int].status);
        let phase = self.records[i].status.phase;
        if phase.completed_step(to) {
            return Ok(());
        }
        if phase != from {
            return Err(JournalError::WrongPhase(phase));
        }
        let outcome = if to == DeploymentPhase::Preflighted {
            backend.preflight(id)
        } else {
            backend.stage(id)
        };
        match outcome {
            Err(e) => {
                return Err(JournalError::Backend(e));
            },
            Ok(()) => {},
        }
        self.set_phase(i, to);
        proof {
            use_type_invariant(&*self);
            lemma_index_of(self.deployments(), i as int);
        }
        Ok(())
    }
}

pub open spec fn modified(s: DeploymentStatus, phase: DeploymentPhase, window: Option<ApplyWindow>, rounds: Option<u32>) -> DeploymentStatus {
    let s1 = DeploymentStatus { phase, ..s };
    let s2 = match window {
        Some(w) => DeploymentStatus {
            expires_at_ms: w.deadline_ms,
            provisional_started_at_ms: Some(w.started_at_ms),
            intent_marker: true,
            ..s1
        },
        None => s1,
    };
    match rounds {
        Some(n) => DeploymentStatus { verification_rounds: n, ..s2 },
        None => s2,
    }
}

impl DeploymentJournal {
    /// Moves deployment `i` to `phase`, optionally recording a new restore
    /// checkpoint, an apply window, a round count or a sealed proof.
    fn modify(&mut self, i: usize, phase: DeploymentPhase, checkpoint: Option<String>, window: Option<ApplyWindow>,
        rounds: Option<u32>, sealed: Option<ConfirmationProof>)
        requires
            i < old(self).deployments().len(),
            may_follow(old(self).deployments()[i as int].phase, phase),
            !finished(old(self).deployments()[i as int].phase),
        ensures
            final(self).deployments().len() == old(self).deployments().len(),
            forall|j: int| 0 <= j < old(self).deployments().len() && j != i ==> #[trigger] final(self).deployments()[j] == old(self).deployments()[j],
            ({
                let m = modified(old(self).deployments()[i as int], phase, window, rounds);
                let f = final(self).deployments()[i as int];
                &&& f.request == m.request
                &&& f.phase == m.phase
                &&& f.expires_at_ms == m.expires_at_ms
                &&& f.provisional_started_at_ms == m.provisional_started_at_ms
                &&& f.intent_marker == m.intent_marker
                &&& f.verification_rounds == m.verification_rounds
                &&& f.checkpoint_digest@ == match checkpoint { Some(c) => c@, None => old(self).deployments()[i as int].checkpoint_digest@ }
            }),
            sealed is None ==> final(self).records@[i as int].proof == old(self).records@[i as int].proof,
            sealed is Some ==> final(self).records@[i as int].proof == sealed,
            forall|j: int| 0 <= j < old(self).records@.len() && j != i ==> #[trigger] final(self).records@[j] == old(self).records@[j],
            final(self).fences() == old(self).fences(),
            advanced(old(self).deployments(), final(self).deployments()),
            journal_consistent(final(self).deployments()),
    {
        proof {
            use_type_invariant(&*self);
        }
        let ghost before = self.deployments();
        let ghost brecs = self.records@;
        let mut recs: Vec<DeploymentRecord> = Vec::new();
        std::mem::swap(&mut recs, &mut self.records);
        assert(self.deployments() =~= Seq::<DeploymentStatus>::empty());
        let mut rec = recs.remove(i);
        rec.status.phase = phase;
        match checkpoint {
            Some(c) => {
                rec.status.checkpoint_digest = c;
            },
            None => {},
        }
        match window {
            Some(w) => {
                rec.status.expires_at_ms = w.deadline_ms;
                rec.status.provisional_started_at_ms = Some(w.started_at_ms);
                rec.status.intent_marker = true;
            },
            None => {},
        }
        match rounds {
            Some(n) => {
                rec.status.verification_rounds = n;
            },
            None => {},
        }
        match sealed {
            Some(p) => {
                rec.proof = Some(p);
            },
            None => {},
        }
        recs.insert(i, rec);
        let ghost after = recs@.map_values(|r: DeploymentRecord| r.status);
        proof {
            assert(after.len() == before.len());
            assert forall|j: int| 0 <= j < before.len() && j != i implies #[trigger] after[j] == before[j] by {
                assert(recs@[j] == brecs[j]);
            }
            assert forall|j: int| 0 <= j < brecs.len() && j != i implies #[trigger] recs@[j] == brecs[j] by {}
            assert forall|a: int, b: int| 0 <= a < b < after.len() && !finished(after[a].phase) && !finished(after[b].phase)
                implies status_device(#[trigger] after[a]) != status_device(#[trigger] after[b]) by {
                assert(after[a].request == before[a].request && after[b].request == before[b].request);
                assert(!finished(before[a].phase) && !finished(before[b].phase));
            }
            assert forall|a: int, b: int| 0 <= a < b < after.len() implies status_id(#[trigger] after[a]) != status_id(#[trigger] after[b]) by {
                assert(after[a].request == before[a].request && after[b].request == before[b].request);
                assert(status_id(before[a]) != status_id(before[b]));
            }
        }
        self.records = recs;
    }
}

/// The verified confirmation matches the deployment's checkpoint, binding,
/// apply interval and current freshness.
pub open spec fn confirmation_matches(s: DeploymentStatus, e: VerifiedDeploymentConfirmation, now_ms: u64) -> bool {
    &&& e.spec_deployment().deployment_id@ == s.request.deployment_id@
    &&& e.spec_deployment().checkpoint_digest@ == s.checkpoint_digest@
    &&& e.spec_device()@ == s.request.device@
    &&& e.spec_revision()@ == s.request.revision@
    &&& e.spec_plan_id() == s.request.plan_id@
    &&& e.spec_plan_epoch() == s.request.plan_epoch
    &&& e.spec_graph_version() == s.request.graph_version
    &&& now_ms < s.expires_at_ms
    &&& now_ms < e.spec_expires_at_ms()
    &&& e.spec_confirmed_at_ms() <= now_ms
    &&& e.spec_confirmed_at_ms() < s.expires_at_ms
    &&& Some(e.spec_provisional_started_at_ms()) == s.provisional_started_at_ms
    &&& e.spec_deadline_ms() == s.expires_at_ms
    &&& e.spec_proof_digest().len() > 0
}

fn confirmation_proof(s: &DeploymentStatus, evidence: &VerifiedDeploymentConfirmation, now_ms: u64) -> (r: Result<ConfirmationProof, JournalError>)
    ensures
        r is Ok <==> confirmation_matches(*s, *evidence, now_ms),
        r matches Ok(p) ==> p.checkpoint_digest@ == s.checkpoint_digest@ && p.confirmed_at_ms == evidence.spec_confirmed_at_ms()
            && p.accepted_at_ms == now_ms && p.expires_at_ms == evidence.spec_expires_at_ms()
            && p.provisional_started_at_ms == evidence.spec_provisional_started_at_ms() && p.deadline_ms == evidence.spec_deadline_ms()
            && p.proof_digest@ == evidence.spec_proof_digest(),
        r matches Err(e) ==> e matches JournalError::Invalid(_),
{
    let d = evidence.deployment();
    let ok = d.deployment_id == s.request.deployment_id && d.checkpoint_digest == s.checkpoint_digest
        && evidence.device().same(&s.request.device) && evidence.revision().same(&s.request.revision)
        && crate::text::str_eq(evidence.plan_id(), s.request.plan_id.as_str()) && evidence.plan_epoch() == s.request.plan_epoch
        && evidence.graph_version() == s.request.graph_version && now_ms < s.expires_at_ms && now_ms < evidence.expires_at_ms()
        && now_ms >= evidence.confirmed_at_ms() && evidence.confirmed_at_ms() < s.expires_at_ms
        && s.provisional_started_at_ms == Some(evidence.provisional_started_at_ms()) && evidence.deadline_ms() == s.expires_at_ms
        && !evidence.proof_digest().is_empty();
    if !ok {
        return Err(JournalError::Invalid("confirmation does not match local checkpoint, apply interval, or current freshness"));
    }
    Ok(ConfirmationProof {
        checkpoint_digest: s.checkpoint_digest.clone(),
        proof_digest: evidence.proof_digest().to_string(),
        confirmed_at_ms: evidence.confirmed_at_ms(),
        accepted_at_ms: now_ms,
        expires_at_ms: evidence.expires_at_ms(),
        provisional_started_at_ms: evidence.provisional_started_at_ms(),
        deadline_ms: evidence.deadline_ms(),
    })
}

/// A sealed confirmation record is consistent with the deployment it confirms.
spec fn proof_consistent(s: DeploymentStatus, p: Option<ConfirmationProof>) -> bool {
    match p {
        None => false,
        Some(p) => {
            &&& p.checkpoint_digest@ == s.checkpoint_digest@
            &&& p.accepted_at_ms >= p.confirmed_at_ms
            &&& p.confirmed_at_ms >= p.provisional_started_at_ms
            &&& p.accepted_at_ms < p.expires_at_ms
            &&& p.accepted_at_ms < s.expires_at_ms
            &&& p.deadline_ms == s.expires_at_ms
            &&& Some(p.provisional_started_at_ms) == s.provisional_started_at_ms
            &&& s.intent_marker
        },
    }
}

fn proof_valid(s: &DeploymentStatus, p: &Option<ConfirmationProof>) -> (r: bool)
    ensures
        r == proof_consistent(*s, *p),
{
    match p {
        None => false,
        Some(p) => p.checkpoint_digest == s.checkpoint_digest && p.accepted_at_ms >= p.confirmed_at_ms
            && p.confirmed_at_ms >= p.provisional_started_at_ms && p.accepted_at_ms < p.expires_at_ms
            && p.accepted_at_ms < s.expires_at_ms && p.deadline_ms == s.expires_at_ms
            && s.provisional_started_at_ms == Some(p.provisional_started_at_ms) && s.intent_marker,
    }
}

/// Journal operations never touch fences and only move phases forward.
pub open spec fn stepped(old: Seq<DeploymentStatus>, new: Seq<DeploymentStatus>) -> bool {
    journal_consistent(new) && advanced(old, new)
}

/// Deployment `i` moved to `phase` keeping every field but its restore
/// checkpoint, now `checkpoint`; the others are untouched.
pub open spec fn rechecked(old: Seq<DeploymentStatus>, new: Seq<DeploymentStatus>, i: int, phase: DeploymentPhase, checkpoint: Seq<char>) -> bool {
    &&& new.len() == old.len()
    &&& forall|j: int| 0 <= j < old.len() && j != i ==> #[trigger] new[j] == old[j]
    &&& new[i].request == old[i].request
    &&& new[i].phase == phase
    &&& new[i].checkpoint_digest@ == checkpoint
    &&& new[i].expires_at_ms == old[i].expires_at_ms
    &&& new[i].verification_rounds == old[i].verification_rounds
    &&& new[i].intent_marker == old[i].intent_marker
    &&& new[i].provisional_started_at_ms == old[i].provisional_started_at_ms
}

impl DeploymentJournal {
    /// Makes the restore artifact durable and records its receipt; a
    /// delivered retry after success is a no-op.
    pub fn durable_checkpoint<B: ApplyBackend>(&mut self, id: &str, backend: &mut B) -> (r: Result<(), JournalError>)
        ensures
            stepped(old(self).deployments(), final(self).deployments()),
            final(self).fences() == old(self).fences(),
            r is Ok ==> reached(final(self).deployments(), id@, DeploymentPhase::Checkpointed),
            r is Ok && reached(old(self).deployments(), id@, DeploymentPhase::Checkpointed) ==> final(self).deployments() == old(self).deployments(),
            r is Err ==> final(self).deployments() == old(self).deployments(),
            match step_decided(old(self).deployments(), old(self).fences(), id@, DeploymentPhase::Staged, DeploymentPhase::Checkpointed) {
                Some(x) => r == x && final(backend).calls() == old(backend).calls(),
                None => final(backend).calls() == old(backend).calls().push(BackendCall::Checkpoint(id@)) && ((r is Ok
                    && exists|c: Seq<char>| c.len() > 0 && #[trigger] rechecked(
                        old(self).deployments(),
                        final(self).deployments(),
                        index_of(old(self).deployments(), id@),
                        DeploymentPhase::Checkpointed,
                        c,
                    )) || r matches Err(JournalError::Backend(_)) || r matches Err(JournalError::Invalid(_))),
            },
    {
        proof {
            use_type_invariant(&*self);
        }
        let ghost ds = self.deployments();
        let i = match self.bound(id) {
            Ok(i) => i,
            Err(e) => {
                return Err(e);
            },
        };
        proof {
            lemma_index_of(ds, i as int);
        }
        assert(ds[i as int] == self.records@[i as int].status);
        let phase = self.records[i].status.phase;
        if phase.completed_step(DeploymentPhase::Checkpointed) {
            return Ok(());
        }
        if phase != DeploymentPhase::Staged {
            return Err(JournalError::WrongPhase(phase));
        }
        let receipt = match backend.durable_checkpoint(id) {
            Ok(r) => r,
            Err(e) => {
                return Err(JournalError::Backend(e));
            },
        };
        if str_empty(&receipt.restore_artifact_digest) {
            return Err(JournalError::Invalid("empty durable checkpoint receipt"));
        }
        let ghost c = receipt.restore_artifact_digest@;
        self.modify(i, DeploymentPhase::Checkpointed, Some(receipt.restore_artifact_digest), None, None, None);
        proof {
            lemma_index_of(self.deployments(), i as int);
            assert(rechecked(ds, self.deployments(), i as int, DeploymentPhase::Checkpointed, c));
        }
        Ok(())
    }

    /// Records the apply window and intent, then asks the backend for a timed
    /// provisional apply exactly once. A failed or lost reply leaves the
    /// deployment `Uncertain`, from which the apply is never retried.
    pub fn provisional_apply<B: ApplyBackend>(&mut self, id: &str, now_ms: u64, backend: &mut B) -> (r: Result<(), JournalError>)
        ensures
            stepped(old(self).deployments(), final(self).deployments()),
            final(self).fences() == old(self).fences(),
            r is Ok ==> reached(final(self).deployments(), id@, DeploymentPhase::AwaitingVerification),
            r is Ok && reached(old(self).deployments(), id@, DeploymentPhase::AwaitingVerification)
                ==> final(self).deployments() == old(self).deployments(),
            r matches Err(JournalError::Backend(_)) ==> phase_of(final(self).deployments(), id@) == Some(DeploymentPhase::Uncertain),
            phase_of(old(self).deployments(), id@) == Some(DeploymentPhase::Checkpointed) && (r is Ok || r matches Err(JournalError::Backend(_))) ==> ({
                let f = final(self).deployments()[index_of(final(self).deployments(), id@)];
                &&& f.intent_marker
                &&& f.provisional_started_at_ms == Some(now_ms)
                &&& Some(f.expires_at_ms) == window_deadline(f.request, now_ms)
            }),
            !(r is Ok) && !(r matches Err(JournalError::Backend(_))) ==> final(self).deployments() == old(self).deployments(),
            ({
                let v = old(self).deployments();
                let i = index_of(v, id@);
                let unchanged = final(self).deployments() == v && final(backend).calls() == old(backend).calls();
                match bound_spec(v, old(self).fences(), id@) {
                    Err(e) => r == Err::<(), JournalError>(e) && unchanged,
                    Ok(_) => if v[i].phase == DeploymentPhase::AwaitingVerification || v[i].phase == DeploymentPhase::ConfirmIntent
                        || v[i].phase == DeploymentPhase::Confirmed {
                        r == Ok::<(), JournalError>(()) && unchanged
                    } else if v[i].phase != DeploymentPhase::Checkpointed {
                        r == Err::<(), JournalError>(JournalError::WrongPhase(v[i].phase)) && unchanged
                    } else {
                        match window_deadline(v[i].request, now_ms) {
                            None => r matches Err(JournalError::Invalid(_)) && unchanged,
                            Some(d) => if v[i].checkpoint_digest@.len() == 0 {
                                r == Err::<(), JournalError>(JournalError::CorruptState) && unchanged
                            } else {
                                &&& final(backend).calls() == old(backend).calls().push(
                                    BackendCall::Apply(id@, v[i].request.plan_digest@, ApplyWindow { started_at_ms: now_ms, deadline_ms: d }),
                                )
                                &&& (r is Ok && phase_of(final(self).deployments(), id@) == Some(DeploymentPhase::AwaitingVerification))
                                    || (r matches Err(JournalError::Backend(_))
                                        && phase_of(final(self).deployments(), id@) == Some(DeploymentPhase::Uncertain))
                            },
                        }
                    },
                }
            }),
    {
        proof {
            use_type_invariant(&*self);
        }
        let ghost ds = self.deployments();
        let i = match self.bound(id) {
            Ok(i) => i,
            Err(e) => {
                return Err(e);
            },
        };
        proof {
            lemma_index_of(ds, i as int);
        }
        assert(ds[i as int] == self.records@[i as int].status);
        let phase = self.records[i].status.phase;
        if phase == DeploymentPhase::AwaitingVerification || phase == DeploymentPhase::ConfirmIntent
            || phase == DeploymentPhase::Confirmed {
            return Ok(());
        }
        if phase != DeploymentPhase::Checkpointed {
            return Err(JournalError::WrongPhase(phase));
        }
        let deadline = match apply_deadline(&self.records[i].status.request, now_ms) {
            Some(d) => d,
            None => {
                return Err(JournalError::Invalid("confirmation deadline overflow"));
            },
        };
        if str_empty(&self.records[i].status.checkpoint_digest) {
            return Err(JournalError::CorruptState);
        }
        let window = ApplyWindow { started_at_ms: now_ms, deadline_ms: deadline };
        self.modify(i, DeploymentPhase::ProvisionalIntent, None, Some(window), None, None);
        let ghost mid = self.deployments();
        proof {
            lemma_index_of(mid, i as int);
        }
        assert(mid[i as int] == self.records@[i as int].status);
        let outcome = backend.provisional_apply(id, self.records[i].status.request.plan_digest.as_str(), window);
        match outcome {
            Ok(()) => {
                self.set_phase(i, DeploymentPhase::AwaitingVerification);
                proof {
                    lemma_index_of(self.deployments(), i as int);
                    lemma_may_follow_transitive(ds[i as int].phase, DeploymentPhase::ProvisionalIntent, DeploymentPhase::AwaitingVerification);
                }
                Ok(())
            },
            Err(e) => {
                self.set_phase(i, DeploymentPhase::Uncertain);
                proof {
                    lemma_index_of(self.deployments(), i as int);
                    lemma_may_follow_transitive(ds[i as int].phase, DeploymentPhase::ProvisionalIntent, DeploymentPhase::Uncertain);
                }
                Err(JournalError::Backend(e))
            },
        }
    }
}

/// The next call the backend received after `before` was a reconciliation
/// of this deployment.
pub open spec fn reconciled_first(before: Seq<BackendCall>, after: Seq<BackendCall>, id: Seq<char>) -> bool {
    after.len() > before.len() && after.subrange(0, before.len() as int) == before && after[before.len() as int] == BackendCall::Reconcile(id)
}

proof fn lemma_reconciled_extends(c0: Seq<BackendCall>, c1: Seq<BackendCall>, c2: Seq<BackendCall>, id: Seq<char>, s: DeploymentStatus,
    r: Result<(), JournalError>, phase: DeploymentPhase)
    requires
        reconciled_first(c0, c1, id),
        rolled_back_by(s, c1, c2, r, phase),
    ensures
        reconciled_first(c0, c2, id),
{
    if c2 != c1 {
        assert(c2.subrange(0, c0.len() as int) =~= c0);
    }
}

/// Rolling back deployment `s`: with an apply intent but no restore
/// checkpoint the journal is corrupt and nothing is called; otherwise the
/// staging is discarded (no intent) or the checkpoint restored (intent),
/// ending `RolledBack`, or `RollingBack` with the backend's error.
pub open spec fn rolled_back_by(
    s: DeploymentStatus,
    before: Seq<BackendCall>,
    after: Seq<BackendCall>,
    r: Result<(), JournalError>,
    phase: DeploymentPhase,
) -> bool {
    if s.intent_marker && s.checkpoint_digest@.len() == 0 {
        r == Err::<(), JournalError>(JournalError::CorruptState) && after == before && phase == s.phase
    } else {
        &&& after == before.push(if s.intent_marker {
            BackendCall::Rollback(status_id(s), s.checkpoint_digest@)
        } else {
            BackendCall::Discard(status_id(s))
        })
        &&& (r is Ok && phase == DeploymentPhase::RolledBack) || (r matches Err(JournalError::Backend(_))
            && phase == DeploymentPhase::RollingBack)
    }
}

impl DeploymentJournal {
    /// The deployment holds a sealed confirmation consistent with its
    /// checkpoint, apply interval and intent.
    pub closed spec fn sealed(&self, id: Seq<char>) -> bool {
        let i = index_of(self.deployments(), id);
        0 <= i < self.records@.len() && proof_consistent(self.records@[i].status, self.records@[i].proof)
    }

    fn finish_confirmation(&mut self, i: usize) -> (r: Result<(), JournalError>)
        requires
            i < old(self).deployments().len(),
            old(self).deployments()[i as int].phase == DeploymentPhase::ConfirmIntent,
        ensures
            stepped(old(self).deployments(), final(self).deployments()),
            final(self).fences() == old(self).fences(),
            r is Ok ==> final(self).deployments()[i as int].phase == DeploymentPhase::Confirmed
                && final(self).deployments()[i as int].verification_rounds == REQUIRED_VERIFICATION_ROUNDS
                && proof_consistent(final(self).records@[i as int].status, final(self).records@[i as int].proof),
            r is Ok ==> forall|j: int| 0 <= j < old(self).deployments().len() && j != i ==> #[trigger] final(self).deployments()[j] == old(self).deployments()[j],
            r is Err ==> r == Err::<(), JournalError>(JournalError::CorruptState) && final(self).deployments() == old(self).deployments(),
            final(self).deployments().len() == old(self).deployments().len(),
    {
        proof {
            use_type_invariant(&*self);
        }
        assert(self.deployments()[i as int] == self.records@[i as int].status);
        if !proof_valid(&self.records[i].status, &self.records[i].proof) {
            return Err(JournalError::CorruptState);
        }
        self.modify(i, DeploymentPhase::Confirmed, None, None, Some(REQUIRED_VERIFICATION_ROUNDS), None);
        assert(self.deployments()[i as int] == self.records@[i as int].status);
        Ok(())
    }

    fn rollback_locked<B: ApplyBackend>(&mut self, i: usize, backend: &mut B) -> (r: Result<(), JournalError>)
        requires
            i < old(self).deployments().len(),
            !finished(old(self).deployments()[i as int].phase),
        ensures
            stepped(old(self).deployments(), final(self).deployments()),
            final(self).fences() == old(self).fences(),
            final(self).deployments().len() == old(self).deployments().len(),
            forall|j: int| 0 <= j < old(self).deployments().len() && j != i ==> #[trigger] final(self).deployments()[j] == old(self).deployments()[j],
            r is Ok ==> final(self).deployments()[i as int].phase == DeploymentPhase::RolledBack,
            r is Err ==> !finished(final(self).deployments()[i as int].phase),
            rolled_back_by(old(self).deployments()[i as int], old(backend).calls(), final(backend).calls(), r,
                final(self).deployments()[i as int].phase),
            r == Err::<(), JournalError>(JournalError::CorruptState) ==> final(self).deployments() == old(self).deployments(),
    {
        proof {
            use_type_invariant(&*self);
        }
        let ghost ds = self.deployments();
        assert(ds[i as int] == self.records@[i as int].status);
        let intent = self.records[i].status.intent_marker;
        if intent && str_empty(&self.records[i].status.checkpoint_digest) {
            return Err(JournalError::CorruptState);
        }
        if self.records[i].status.phase != DeploymentPhase::RollingBack {
            self.set_phase(i, DeploymentPhase::RollingBack);
        }
        let ghost mid = self.deployments();
        assert(mid[i as int] == self.records@[i as int].status);
        let id = self.records[i].status.request.deployment_id.clone();
        // Persisted rollback intent precedes the effect, so a lost reply stays retryable.
        let outcome = if !intent {
            backend.discard_staging(id.as_str())
        } else {
            let digest = self.records[i].status.checkpoint_digest.clone();
            backend.rollback(id.as_str(), digest.as_str())
        };
        match outcome {
            Err(e) => {
                return Err(JournalError::Backend(e));
            },
            Ok(()) => {},
        }
        self.set_phase(i, DeploymentPhase::RolledBack);
        proof {
            lemma_may_follow_transitive(ds[i as int].phase, mid[i as int].phase, DeploymentPhase::RolledBack);
        }
        Ok(())
    }

    fn reconcile_locked<B: ApplyBackend>(&mut self, i: usize, backend: &mut B) -> (r: Result<DeploymentPhase, JournalError>)
        requires
            i < old(self).deployments().len(),
            !finished(old(self).deployments()[i as int].phase),
        ensures
            stepped(old(self).deployments(), final(self).deployments()),
            final(self).fences() == old(self).fences(),
            final(self).deployments().len() == old(self).deployments().len(),
            forall|j: int| 0 <= j < old(self).deployments().len() && j != i ==> #[trigger] final(self).deployments()[j] == old(self).deployments()[j],
            r matches Ok(p) ==> final(self).deployments()[i as int].phase == p
                && (p == DeploymentPhase::Confirmed || p == DeploymentPhase::RolledBack),
            r == Ok::<DeploymentPhase, JournalError>(DeploymentPhase::Confirmed) ==> old(self).deployments()[i as int].phase == DeploymentPhase::ConfirmIntent
                && proof_consistent(final(self).records@[i as int].status, final(self).records@[i as int].proof),
            old(self).deployments()[i as int].phase == DeploymentPhase::ConfirmIntent && r is Err
                ==> final(self).deployments()[i as int].phase == DeploymentPhase::ConfirmIntent || !finished(final(self).deployments()[i as int].phase),
            reconciled_first(old(backend).calls(), final(backend).calls(), status_id(old(self).deployments()[i as int]))
                || (r == Err::<DeploymentPhase, JournalError>(JournalError::CorruptState) && final(backend).calls() == old(backend).calls()
                    && final(self).deployments() == old(self).deployments()),
    {
        proof {
            use_type_invariant(&*self);
        }
        let ghost ds = self.deployments();
        assert(ds[i as int] == self.records@[i as int].status);
        let phase = self.records[i].status.phase;
        if phase == DeploymentPhase::ConfirmIntent && !proof_valid(&self.records[i].status, &self.records[i].proof) {
            return Err(JournalError::CorruptState);
        }
        let id = self.records[i].status.request.deployment_id.clone();
        assert(id@ == status_id(ds[i as int]));
        let ghost calls0 = backend.calls();
        let answer = backend.reconcile(id.as_str());
        proof {
            assert(backend.calls().subrange(0, calls0.len() as int) =~= calls0);
        }
        let disposition = match answer {
            Ok(d) => d,
            Err(e) => {
                return Err(JournalError::Backend(e));
            },
        };
        match disposition {
            BackendDisposition::Confirmed { checkpoint_digest } => {
                if phase != DeploymentPhase::ConfirmIntent || checkpoint_digest != self.records[i].status.checkpoint_digest {
                    return Err(JournalError::CorruptState);
                }
                match self.finish_confirmation(i) {
                    Ok(()) => Ok(DeploymentPhase::Confirmed),
                    Err(e) => Err(e),
                }
            },
            BackendDisposition::AlreadyRolledBack => {
                self.set_phase(i, DeploymentPhase::RolledBack);
                Ok(DeploymentPhase::RolledBack)
            },
            BackendDisposition::AppliedOrUnknown => {
                if phase == DeploymentPhase::ConfirmIntent {
                    return Err(JournalError::UncertainConfirmation);
                }
                let ghost calls1 = backend.calls();
                let ghost before_rb = self.deployments();
                let outcome = self.rollback_locked(i, backend);
                proof {
                    lemma_reconciled_extends(calls0, calls1, backend.calls(), id@, before_rb[i as int], outcome,
                        self.deployments()[i as int].phase);
                }
                match outcome {
                    Ok(()) => Ok(DeploymentPhase::RolledBack),
                    Err(e) => Err(e),
                }
            },
            BackendDisposition::Provisional => {
                let ghost calls1 = backend.calls();
                let ghost before_rb = self.deployments();
                let outcome = self.rollback_locked(i, backend);
                proof {
                    lemma_reconciled_extends(calls0, calls1, backend.calls(), id@, before_rb[i as int], outcome,
                        self.deployments()[i as int].phase);
                }
                match outcome {
                    Ok(()) => Ok(DeploymentPhase::RolledBack),
                    Err(e) => Err(e),
                }
            },
        }
    }
}

impl DeploymentJournal {
    /// Seals an independent confirmation and then asks the backend to
    /// confirm. The sealed intent is durable before the call, so a lost reply
    /// leaves `ConfirmIntent`, resolved only by reconciliation, never an
    /// invented success; an expired authorization issues no backend call.
    #[verifier::rlimit(40)]
    pub fn record_independent_confirmation<B: ApplyBackend>(
        &mut self,
        id: &str,
        evidence: &VerifiedDeploymentConfirmation,
        now_ms: u64,
        backend: &mut B,
    ) -> (r: Result<DeploymentPhase, JournalError>)
        ensures
            stepped(old(self).deployments(), final(self).deployments()),
            final(self).fences() == old(self).fences(),
            r matches Ok(p) ==> phase_of(final(self).deployments(), id@) == Some(p)
                && (p == DeploymentPhase::Confirmed || p == DeploymentPhase::RolledBack),
            r == Ok::<DeploymentPhase, JournalError>(DeploymentPhase::Confirmed) ==> final(self).sealed(id@),
            phase_of(old(self).deployments(), id@) == Some(DeploymentPhase::AwaitingVerification)
                && r == Ok::<DeploymentPhase, JournalError>(DeploymentPhase::Confirmed)
                ==> confirmation_matches(old(self).deployments()[index_of(old(self).deployments(), id@)], *evidence, now_ms),
            ({
                let v = old(self).deployments();
                let i = index_of(v, id@);
                let unchanged = final(self).deployments() == v && final(backend).calls() == old(backend).calls();
                match bound_spec(v, old(self).fences(), id@) {
                    Err(e) => r == Err::<DeploymentPhase, JournalError>(e) && unchanged,
                    Ok(_) => if v[i].phase == DeploymentPhase::Confirmed {
                        unchanged && if old(self).sealed(id@) {
                            r == Ok::<DeploymentPhase, JournalError>(DeploymentPhase::Confirmed)
                        } else {
                            r == Err::<DeploymentPhase, JournalError>(JournalError::CorruptState)
                        }
                    } else if v[i].phase == DeploymentPhase::ConfirmIntent {
                        reconciled_first(old(backend).calls(), final(backend).calls(), id@) || (r == Err::<DeploymentPhase, JournalError>(
                            JournalError::CorruptState,
                        ) && unchanged)
                    } else if !confirmation_matches(v[i], *evidence, now_ms) {
                        r matches Err(JournalError::Invalid(_)) && unchanged
                    } else if v[i].phase != DeploymentPhase::AwaitingVerification {
                        r == Err::<DeploymentPhase, JournalError>(JournalError::WrongPhase(v[i].phase)) && unchanged
                    } else {
                        let auth = if evidence.spec_expires_at_ms() < v[i].expires_at_ms {
                            evidence.spec_expires_at_ms()
                        } else {
                            v[i].expires_at_ms
                        };
                        if now_ms >= auth {
                            r matches Err(JournalError::Invalid(_)) && final(backend).calls() == old(backend).calls()
                                && phase_of(final(self).deployments(), id@) == Some(DeploymentPhase::ConfirmIntent)
                        } else {
                            &&& final(backend).calls() == old(backend).calls().push(
                                BackendCall::Confirm(id@, v[i].checkpoint_digest@, auth),
                            )
                            &&& r == Ok::<DeploymentPhase, JournalError>(DeploymentPhase::Confirmed) || r == Err::<DeploymentPhase, JournalError>(
                                JournalError::CorruptState,
                            ) || (r matches Err(JournalError::Backend(_))
                                && phase_of(final(self).deployments(), id@) == Some(DeploymentPhase::ConfirmIntent))
                        }
                    },
                }
            }),
    {
        proof {
            use_type_invariant(&*self);
        }
        let ghost ds = self.deployments();
        let i = match self.bound(id) {
            Ok(i) => i,
            Err(e) => {
                return Err(e);
            },
        };
        proof {
            lemma_index_of(ds, i as int);
        }
        assert(ds[i as int] == self.records@[i as int].status);
        let phase = self.records[i].status.phase;
        if phase == DeploymentPhase::Confirmed {
            if !proof_valid(&self.records[i].status, &self.records[i].proof) {
                return Err(JournalError::CorruptState);
            }
            return Ok(DeploymentPhase::Confirmed);
        }
        if phase == DeploymentPhase::ConfirmIntent {
            // The authorization was sealed before the backend call; a retry
            // only reconciles that call and never confirms a second time.
            let r = self.reconcile_locked(i, backend);
            proof {
                use_type_invariant(&*self);
                lemma_index_of(self.deployments(), i as int);
            }
            return r;
        }
        // Neither a stale token nor one scoped to another apply window authorizes an effect.
        let sealed = match confirmation_proof(&self.records[i].status, evidence, now_ms) {
            Ok(p) => p,
            Err(e) => {
                return Err(e);
            },
        };
        if phase != DeploymentPhase::AwaitingVerification {
            return Err(JournalError::WrongPhase(phase));
        }
        let proof_expiry = sealed.expires_at_ms;
        let status_expiry = self.records[i].status.expires_at_ms;
        let authorization_expires_at_ms = if proof_expiry < status_expiry { proof_expiry } else { status_expiry };
        self.modify(i, DeploymentPhase::ConfirmIntent, None, None, None, Some(sealed));
        let ghost mid = self.deployments();
        assert(mid[i as int] == self.records@[i as int].status);
        if now_ms >= authorization_expires_at_ms {
            return Err(JournalError::Invalid("confirmation authorization expired"));
        }
        let checkpoint = self.records[i].status.checkpoint_digest.clone();
        match backend.confirm(id, checkpoint.as_str(), authorization_expires_at_ms) {
            Err(e) => {
                return Err(JournalError::Backend(e));
            },
            Ok(()) => {},
        }
        let done = self.finish_confirmation(i);
        proof {
            use_type_invariant(&*self);
            lemma_index_of(self.deployments(), i as int);
            lemma_may_follow_transitive(ds[i as int].phase, DeploymentPhase::ConfirmIntent, self.deployments()[i as int].phase);
        }
        match done {
            Ok(()) => Ok(DeploymentPhase::Confirmed),
            Err(e) => Err(e),
        }
    }

    /// Rolls a deployment back unless it is confirmed; a deployment with a
    /// sealed confirmation intent is first reconciled with the backend.
    pub fn rollback<B: ApplyBackend>(&mut self, id: &str, backend: &mut B) -> (r: Result<(), JournalError>)
        ensures
            stepped(old(self).deployments(), final(self).deployments()),
            final(self).fences() == old(self).fences(),
            r is Ok ==> phase_of(final(self).deployments(), id@) == Some(DeploymentPhase::RolledBack),
            phase_of(old(self).deployments(), id@) == Some(DeploymentPhase::Confirmed) ==> r is Err
                && final(self).deployments() == old(self).deployments(),
            ({
                let v = old(self).deployments();
                let i = index_of(v, id@);
                let unchanged = final(self).deployments() == v && final(backend).calls() == old(backend).calls();
                match bound_spec(v, old(self).fences(), id@) {
                    Err(e) => r == Err::<(), JournalError>(e) && unchanged,
                    Ok(_) => if v[i].phase == DeploymentPhase::RolledBack {
                        r == Ok::<(), JournalError>(()) && unchanged
                    } else if v[i].phase == DeploymentPhase::Confirmed {
                        r == Err::<(), JournalError>(JournalError::WrongPhase(DeploymentPhase::Confirmed)) && unchanged
                    } else if v[i].phase == DeploymentPhase::ConfirmIntent {
                        reconciled_first(old(backend).calls(), final(backend).calls(), id@) || (r == Err::<(), JournalError>(
                            JournalError::CorruptState,
                        ) && unchanged)
                    } else {
                        rolled_back_by(v[i], old(backend).calls(), final(backend).calls(), r, phase_of(final(self).deployments(), id@)->0)
                    },
                }
            }),
    {
        proof {
            use_type_invariant(&*self);
        }
        let ghost ds = self.deployments();
        let i = match self.bound(id) {
            Ok(i) => i,
            Err(e) => {
                proof {
                    if phase_of(ds, id@) == Some(DeploymentPhase::Confirmed) {
                    }
                }
                return Err(e);
            },
        };
        proof {
            lemma_index_of(ds, i as int);
        }
        assert(ds[i as int] == self.records@[i as int].status);
        let phase = self.records[i].status.phase;
        if phase == DeploymentPhase::RolledBack {
            return Ok(());
        }
        if phase == DeploymentPhase::Confirmed {
            return Err(JournalError::WrongPhase(phase));
        }
        if phase == DeploymentPhase::ConfirmIntent {
            let result = self.reconcile_locked(i, backend);
            proof {
                use_type_invariant(&*self);
                lemma_index_of(self.deployments(), i as int);
            }
            return match result {
                Ok(DeploymentPhase::Confirmed) => Err(JournalError::WrongPhase(DeploymentPhase::Confirmed)),
                Ok(_) => Ok(()),
                Err(e) => Err(e),
            };
        }
        let result = self.rollback_locked(i, backend);
        proof {
            use_type_invariant(&*self);
            lemma_index_of(self.deployments(), i as int);
        }
        result
    }

    /// The current status of a deployment.
    pub fn status(&self, id: &str) -> (r: Result<DeploymentStatus, JournalError>)
        ensures
            journal_consistent(self.deployments()),
            match r {
                Ok(st) => phase_of(self.deployments(), id@) is Some
                    && same_status(st, self.deployments()[index_of(self.deployments(), id@)]),
                Err(e) => e == JournalError::UnknownDeployment && phase_of(self.deployments(), id@) is None,
            },
    {
        proof {
            use_type_invariant(self);
        }
        match self.find(id) {
            Some(i) => {
                proof {
                    lemma_index_of(self.deployments(), i as int);
                }
                assert(self.deployments()[i as int] == self.records@[i as int].status);
                Ok(self.records[i].status.duplicate())
            },
            None => Err(JournalError::UnknownDeployment),
        }
    }
}

/// A deployment ID as the bytes it is ordered by.
pub open spec fn id_bytes(s: DeploymentStatus) -> Seq<u8> {
    vstd::utf8::encode_utf8(status_id(s))
}

/// `order` lists every deployment unfinished in `ds`, each once, by
/// ascending deployment ID.
pub open spec fn recovery_order(ds: Seq<DeploymentStatus>, order: Seq<usize>) -> bool {
    &&& forall|t: int| 0 <= t < order.len() ==> (#[trigger] order[t]) < ds.len() && !finished(ds[order[t] as int].phase)
    &&& forall|t: int, u: int| 0 <= t < u < order.len() ==> bytes_lt(
        id_bytes(ds[(#[trigger] order[t]) as int]),
        id_bytes(ds[(#[trigger] order[u]) as int]),
    )
    &&& forall|k: int| 0 <= k < ds.len() && !finished(ds[k].phase) ==> exists|t: int| 0 <= t < order.len() && (#[trigger] order[t]) == k
}

/// Recovering the unfinished deployment `s` under fences `fs`, with the
/// backend's calls going from `before` to `after_calls`, gave `res` and left
/// it as `after`: a stale binding is refused, with no call and no change;
/// one with an apply intent is reconciled with the backend first (or found
/// corrupt, with no call and no change); any other is rolled back. Only a
/// finished deployment counts as recovered.
pub open spec fn recovered_by(
    s: DeploymentStatus,
    fs: Seq<FenceView>,
    before: Seq<BackendCall>,
    after_calls: Seq<BackendCall>,
    res: Result<(), JournalError>,
    after: DeploymentStatus,
) -> bool {
    &&& (res is Ok ==> finished(after.phase))
    &&& if !binding_current(fs, s.request) {
        res == Err::<(), JournalError>(JournalError::StaleBinding) && after_calls == before && after == s
    } else if s.intent_marker {
        reconciled_first(before, after_calls, status_id(s)) || (res == Err::<(), JournalError>(JournalError::CorruptState)
            && after_calls == before && after == s)
    } else {
        rolled_back_by(s, before, after_calls, res, after.phase)
    }
}

/// The first error among the results, in order.
pub open spec fn first_error(rs: Seq<Result<(), JournalError>>) -> Option<JournalError>
    decreases rs.len(),
{
    if rs.len() == 0 {
        None
    } else {
        match first_error(rs.drop_last()) {
            Some(e) => Some(e),
            None => match rs.last() {
                Err(e) => Some(e),
                Ok(_) => None,
            },
        }
    }
}

/// The IDs of the deployments in `order` whose recovery succeeded, in order.
pub open spec fn recovered_ids(ds: Seq<DeploymentStatus>, order: Seq<usize>, rs: Seq<Result<(), JournalError>>) -> Seq<Seq<char>>
    decreases rs.len(),
{
    if rs.len() == 0 || order.len() == 0 {
        Seq::empty()
    } else {
        let prev = recovered_ids(ds, order.drop_last(), rs.drop_last());
        if rs.last() is Ok {
            prev.push(status_id(ds[order.last() as int]))
        } else {
            prev
        }
    }
}

proof fn lemma_no_error_all_ok(rs: Seq<Result<(), JournalError>>)
    requires
        first_error(rs) is None,
    ensures
        forall|u: int| 0 <= u < rs.len() ==> (#[trigger] rs[u]) is Ok,
    decreases rs.len(),
{
    if rs.len() > 0 {
        lemma_no_error_all_ok(rs.drop_last());
        assert forall|u: int| 0 <= u < rs.len() implies (#[trigger] rs[u]) is Ok by {
            if u < rs.len() - 1 {
                assert(rs.drop_last()[u] == rs[u]);
            }
        }
    }
}

proof fn lemma_ids_differ(a: DeploymentStatus, b: DeploymentStatus)
    requires
        status_id(a) != status_id(b),
    ensures
        id_bytes(a) != id_bytes(b),
{
    vstd::utf8::encode_utf8_decode_utf8(status_id(a));
    vstd::utf8::encode_utf8_decode_utf8(status_id(b));
}

impl DeploymentJournal {
    /// Where the deployment at `k` goes among `order`: after every ID below
    /// its own, before the first above it.
    fn insertion_point(&self, order: &Vec<usize>, k: usize) -> (p: usize)
        requires
            k < self.deployments().len(),
            journal_consistent(self.deployments()),
            forall|t: int| 0 <= t < order@.len() ==> (#[trigger] order@[t]) < k,
        ensures
            p <= order@.len(),
            forall|t: int| 0 <= t < p ==> bytes_lt(id_bytes(self.deployments()[(#[trigger] order@[t]) as int]), id_bytes(self.deployments()[k as int])),
            p < order@.len() ==> bytes_lt(id_bytes(self.deployments()[k as int]), id_bytes(self.deployments()[order@[p as int] as int])),
    {
        let ghost ds = self.deployments();
        assert(ds[k as int] == self.records@[k as int].status);
        let key = self.records[k].status.request.deployment_id.as_str().as_bytes();
        let mut p: usize = 0;
        while p < order.len()
            invariant
                p <= order@.len(),
                ds == self.deployments(),
                k < ds.len(),
                journal_consistent(ds),
                key@ == id_bytes(ds[k as int]),
                forall|t: int| 0 <= t < order@.len() ==> (#[trigger] order@[t]) < k,
                forall|t: int| 0 <= t < p ==> bytes_lt(id_bytes(ds[(#[trigger] order@[t]) as int]), id_bytes(ds[k as int])),
            decreases order@.len() - p,
        {
            let o = order[p];
            assert(ds[o as int] == self.records@[o as int].status);
            let other = self.records[o].status.request.deployment_id.as_str().as_bytes();
            if bytes_lt_exec(key, other) {
                return p;
            }
            proof {
                assert(status_id(ds[o as int]) != status_id(ds[k as int]));
                lemma_ids_differ(ds[o as int], ds[k as int]);
                lemma_bytes_lt_total(id_bytes(ds[o as int]), id_bytes(ds[k as int]));
            }
            p = p + 1;
        }
        p
    }

    /// The deployments unfinished now, by ascending deployment ID.
    fn unfinished_by_id(&self) -> (r: Vec<usize>)
        ensures
            recovery_order(self.deployments(), r@),
    {
        proof {
            use_type_invariant(self);
        }
        let ghost ds = self.deployments();
        let mut order: Vec<usize> = Vec::new();
        let mut k: usize = 0;
        while k < self.records.len()
            invariant
                k <= ds.len(),
                ds.len() == self.records@.len(),
                ds == self.deployments(),
                journal_consistent(ds),
                forall|t: int| 0 <= t < order@.len() ==> (#[trigger] order@[t]) < k && !finished(ds[order@[t] as int].phase),
                forall|t: int, u: int| 0 <= t < u < order@.len() ==> bytes_lt(
                    id_bytes(ds[(#[trigger] order@[t]) as int]),
                    id_bytes(ds[(#[trigger] order@[u]) as int]),
                ),
                forall|j: int| 0 <= j < k && !finished(ds[j].phase) ==> exists|t: int| 0 <= t < order@.len() && (#[trigger] order@[t]) == j,
            decreases ds.len() - k,
        {
            assert(ds[k as int] == self.records@[k as int].status);
            let phase = self.records[k].status.phase;
            if !(phase == DeploymentPhase::Confirmed || phase == DeploymentPhase::RolledBack) {
                let p = self.insertion_point(&order, k);
                let ghost prev = order@;
                order.insert(p, k);
                proof {
                    assert(order@ == prev.insert(p as int, k));
                    assert forall|t: int| 0 <= t < order@.len() implies (#[trigger] order@[t]) < k + 1 && !finished(ds[order@[t] as int].phase) by {
                        if t > p {
                            assert(order@[t] == prev[t - 1]);
                        }
                    }
                    assert forall|t: int, u: int| 0 <= t < u < order@.len() implies bytes_lt(
                        id_bytes(ds[(#[trigger] order@[t]) as int]),
                        id_bytes(ds[(#[trigger] order@[u]) as int]),
                    ) by {
                        let a = if t < p { prev[t] } else if t == p { k } else { prev[t - 1] };
                        let b = if u < p { prev[u] } else if u == p { k } else { prev[u - 1] };
                        assert(order@[t] == a && order@[u] == b);
                        if t < p && u < p {
                        } else if t < p && u == p {
                            assert(bytes_lt(id_bytes(ds[prev[t] as int]), id_bytes(ds[k as int])));
                        } else if t < p && u > p {
                            assert(bytes_lt(id_bytes(ds[prev[t] as int]), id_bytes(ds[prev[u - 1] as int])));
                        } else if t == p {
                            assert(bytes_lt(id_bytes(ds[k as int]), id_bytes(ds[prev[p as int] as int])));
                            if u - 1 > p {
                                assert(bytes_lt(id_bytes(ds[prev[p as int] as int]), id_bytes(ds[prev[u - 1] as int])));
                                lemma_bytes_lt_transitive(id_bytes(ds[k as int]), id_bytes(ds[prev[p as int] as int]), id_bytes(ds[prev[u - 1] as int]));
                            }
                        } else {
                            assert(bytes_lt(id_bytes(ds[prev[t - 1] as int]), id_bytes(ds[prev[u - 1] as int])));
                        }
                    }
                    assert forall|j: int| 0 <= j < k + 1 && !finished(ds[j].phase) implies exists|t: int| 0 <= t < order@.len() && (#[trigger] order@[t]) == j by {
                        if j == k {
                            assert(order@[p as int] == k);
                        } else {
                            let t0 = choose|t0: int| 0 <= t0 < prev.len() && (#[trigger] prev[t0]) == j;
                            if t0 < p {
                                assert(order@[t0] == j);
                            } else {
                                assert(order@[t0 + 1] == j);
                            }
                        }
                    }
                }
            }
            k = k + 1;
        }
        order
    }
}

impl DeploymentJournal {
    /// Startup recovery of every unfinished deployment, by ascending
    /// deployment ID: one with an apply intent is reconciled with the
    /// backend, any other is rolled back. Apply and confirm are never
    /// repeated. A failure on one device does not stop recovery of the
    /// others; the first error is returned after all were tried, and
    /// otherwise the IDs recovered.
    pub fn recover<B: ApplyBackend>(&mut self, now_ms: u64, backend: &mut B) -> (r: Result<Vec<String>, JournalError>)
        ensures
            stepped(old(self).deployments(), final(self).deployments()),
            final(self).fences() == old(self).fences(),
            final(self).deployments().len() == old(self).deployments().len(),
            r is Ok ==> forall|i: int| 0 <= i < final(self).deployments().len() ==> finished(#[trigger] final(self).deployments()[i].phase),
            (forall|i: int| 0 <= i < old(self).deployments().len() ==> finished(#[trigger] old(self).deployments()[i].phase)) ==> (r matches Ok(
                v,
            ) && v@.len() == 0 && final(self).deployments() == old(self).deployments() && final(backend).calls() == old(backend).calls()),
            exists|order: Seq<usize>, cs: Seq<Seq<BackendCall>>, rs: Seq<Result<(), JournalError>>|
                #![trigger recovery_order(old(self).deployments(), order), first_error(rs), cs.last()]
                recovery_order(old(self).deployments(), order)
                && cs.len() == order.len() + 1 && rs.len() == order.len() && cs[0] == old(backend).calls()
                && cs.last() == final(backend).calls()
                && (forall|t: int| 0 <= t < order.len() ==> #[trigger] recovered_by(
                    old(self).deployments()[order[t] as int],
                    old(self).fences(),
                    cs[t],
                    cs[t + 1],
                    rs[t],
                    final(self).deployments()[order[t] as int],
                ))
                && (forall|k: int| 0 <= k < old(self).deployments().len() && finished(old(self).deployments()[k].phase)
                    ==> #[trigger] final(self).deployments()[k] == old(self).deployments()[k])
                && match first_error(rs) {
                Some(e) => r == Err::<Vec<String>, JournalError>(e),
                None => r matches Ok(v) && view_strings(v@) == recovered_ids(old(self).deployments(), order, rs),
            },
    {
        proof {
            use_type_invariant(&*self);
        }
        let ghost start = self.deployments();
        let ghost fs = self.fences();
        let ghost calls0 = backend.calls();
        let order = self.unfinished_by_id();
        let mut done: Vec<String> = Vec::new();
        let mut first_err: Option<JournalError> = None;
        let ghost mut cs: Seq<Seq<BackendCall>> = seq![calls0];
        let ghost mut rs: Seq<Result<(), JournalError>> = Seq::empty();
        let mut t: usize = 0;
        proof {
            assert(order@.subrange(0, 0) =~= Seq::<usize>::empty());
        }
        while t < order.len()
            invariant
                recovery_order(start, order@),
                t <= order@.len(),
                start == old(self).deployments(),
                calls0 == old(backend).calls(),
                fs == old(self).fences(),
                stepped(start, self.deployments()),
                self.deployments().len() == start.len(),
                self.fences() == fs,
                cs.len() == t + 1,
                rs.len() == t,
                cs[0] == calls0,
                cs.last() == backend.calls(),
                forall|u: int| 0 <= u < t ==> #[trigger] recovered_by(
                    start[order@[u] as int],
                    fs,
                    cs[u],
                    cs[u + 1],
                    rs[u],
                    self.deployments()[order@[u] as int],
                ),
                forall|u: int| t <= u < order@.len() ==> self.deployments()[(#[trigger] order@[u]) as int] == start[order@[u] as int],
                forall|k: int| 0 <= k < start.len() && finished(start[k].phase) ==> #[trigger] self.deployments()[k] == start[k],
                first_err == first_error(rs),
                view_strings(done@) == recovered_ids(start, order@.subrange(0, t as int), rs),
            decreases order@.len() - t,
        {
            proof {
                use_type_invariant(&*self);
            }
            let k = order[t];
            let ghost before = self.deployments();
            let ghost c_before = backend.calls();
            assert(before[k as int] == self.records@[k as int].status);
            assert(before[k as int] == start[k as int]);
            let id = self.records[k].status.request.deployment_id.clone();
            let result: Result<(), JournalError> = match self.bound(id.as_str()) {
                Err(e) => {
                    proof {
                        lemma_index_of(before, k as int);
                        if e == JournalError::StaleBinding {
                            let i = choose|i: int| 0 <= i < before.len() && status_id(#[trigger] before[i]) == id@
                                && !binding_current(fs, before[i].request);
                            lemma_index_of(before, i);
                        }
                    }
                    Err(e)
                },
                Ok(j) => {
                    proof {
                        lemma_index_of(before, k as int);
                        lemma_index_of(before, j as int);
                    }
                    if self.records[k].status.intent_marker {
                        match self.reconcile_locked(k, backend) {
                            Ok(_) => Ok(()),
                            Err(e) => Err(e),
                        }
                    } else {
                        self.rollback_locked(k, backend)
                    }
                },
            };
            proof {
                use_type_invariant(&*self);
                let after = self.deployments();
                assert(recovered_by(start[k as int], fs, c_before, backend.calls(), result, after[k as int]));
                assert forall|q: int| 0 <= q < start.len() implies (#[trigger] after[q]).request == start[q].request
                    && may_follow(start[q].phase, after[q].phase) by {
                    lemma_may_follow_transitive(start[q].phase, before[q].phase, after[q].phase);
                }
                assert forall|u: int| 0 <= u < order@.len() && u != t implies (#[trigger] order@[u]) != k by {
                    lemma_bytes_lt_irreflexive(id_bytes(start[k as int]));
                    if u < t {
                        assert(bytes_lt(id_bytes(start[order@[u] as int]), id_bytes(start[order@[t as int] as int])));
                    } else {
                        assert(bytes_lt(id_bytes(start[order@[t as int] as int]), id_bytes(start[order@[u] as int])));
                    }
                }
                let cs0 = cs;
                let rs0 = rs;
                cs = cs.push(backend.calls());
                rs = rs.push(result);
                assert forall|u: int| 0 <= u < t + 1 implies #[trigger] recovered_by(
                    start[order@[u] as int],
                    fs,
                    cs[u],
                    cs[u + 1],
                    rs[u],
                    after[order@[u] as int],
                ) by {
                    if u < t {
                        assert(cs[u] == cs0[u] && cs[u + 1] == cs0[u + 1] && rs[u] == rs0[u]);
                        assert(order@[u] != k);
                        assert(after[order@[u] as int] == before[order@[u] as int]);
                        assert(recovered_by(start[order@[u] as int], fs, cs0[u], cs0[u + 1], rs0[u], before[order@[u] as int]));
                    }
                }
                assert forall|u: int| t + 1 <= u < order@.len() implies after[(#[trigger] order@[u]) as int] == start[order@[u] as int] by {
                    assert(order@[u] != k);
                    assert(before[order@[u] as int] == start[order@[u] as int]);
                }
                assert forall|q: int| 0 <= q < start.len() && finished(start[q].phase) implies #[trigger] after[q] == start[q] by {
                    assert(q != k);
                    assert(before[q] == start[q]);
                }
                assert(rs.drop_last() =~= rs0);
                assert(order@.subrange(0, t + 1).drop_last() =~= order@.subrange(0, t as int));
            }
            match result {
                Ok(()) => {
                    done.push(id);
                    proof {
                        assert(view_strings(done@) =~= recovered_ids(start, order@.subrange(0, t + 1), rs));
                    }
                },
                Err(e) => {
                    if first_err.is_none() {
                        first_err = Some(e);
                    }
                },
            }
            t = t + 1;
        }
        proof {
            assert(order@.subrange(0, order@.len() as int) =~= order@);
            if first_err is None {
                lemma_no_error_all_ok(rs);
                let fin = self.deployments();
                assert forall|i: int| 0 <= i < fin.len() implies finished(#[trigger] fin[i].phase) by {
                    if !finished(start[i].phase) {
                        let u = choose|u: int| 0 <= u < order@.len() && (#[trigger] order@[u]) == i;
                        assert(recovered_by(start[order@[u] as int], fs, cs[u], cs[u + 1], rs[u], fin[order@[u] as int]));
                        assert(rs[u] is Ok);
                    } else {
                        assert(fin[i] == start[i]);
                    }
                }
            }
            if forall|i: int| 0 <= i < start.len() ==> finished(#[trigger] start[i].phase) {
                if order@.len() > 0 {
                    assert(!finished(start[order@[0] as int].phase));
                }
                assert(self.deployments() =~= start);
            }
        }
        match first_err {
            Some(e) => Err(e),
            None => Ok(done),
        }
    }
}

} // verus!

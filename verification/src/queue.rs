//! The witness's own durable work, fenced independently of controller
//! storage: received assignments (kept as deduplication tombstones), one job
//! per assigned probe, and the signed evidence awaiting delivery. Work and
//! evidence that can no longer run or be delivered are retired, never
//! erased, and live work and undelivered evidence share one capacity.
use crate::attestation::{AssignmentScope, EvidenceError, VerifiedAssignment};
use crate::evidence::WitnessAssignment;
use crate::execution::ExecutionError;
use crate::identity::{identity_text, same_envelope, DsseEnvelope};
use crate::monitor::{envelope_view, SignedEnvelopeView};
use crate::protocol::{
    payload_digest, payload_digest_spec, DeviceBinding, DeviceBindingView, MessageEnvelope, MessageEnvelopeView,
    RevisionRef, RevisionRefView, PROTOCOL_VERSION,
};
use crate::identity::decimal;
use crate::json::json_str;
use crate::storage::{first_in_order, CandidateView};
use crate::text::{byte_len, has_control, has_control_spec};
use vstd::prelude::*;

verus! {

#[derive(Debug, Clone, PartialEq, Eq)]
pub enum QueueError {
    /// Invalid queue configuration, assignment or work lease.
    Invalid,
    /// A message ID was reused with different immutable contents.
    Conflict,
    Full,
    /// A stale device fence or plan epoch.
    Stale,
    /// The assignment envelope does not exactly match the message payload.
    Payload,
    Evidence(EvidenceError),
    Execution(ExecutionError),
    /// The message payload is not a signed envelope.
    Json(String),
}

#[derive(Debug, Clone, Copy, PartialEq, Eq, Structural)]
pub enum Receive {
    Inserted,
    Duplicate,
}

/// A claimed job, held under its lease.
#[derive(Debug, Clone)]
pub struct Work {
    pub message_id: String,
    pub probe_id: String,
    pub lease: String,
}

/// Signed evidence awaiting acknowledgement.
#[derive(Debug, Clone)]
pub struct Delivery {
    pub evidence_id: String,
    pub envelope: DsseEnvelope,
    pub attempts: u32,
}

#[derive(Debug, Clone, Copy, PartialEq, Eq, Structural)]
pub enum JobStatus {
    Pending,
    Running,
    Executing,
    Done,
    Retired,
}

/// Every immutable route field of an assignment.
struct QueueRoute {
    issuer: String,
    recipient: String,
    device: DeviceBinding,
    revision: RevisionRef,
    plan_id: String,
    plan_epoch: u64,
    graph_version: u64,
    location: String,
}

pub struct RouteView {
    pub issuer: Seq<char>,
    pub recipient: Seq<char>,
    pub device: DeviceBindingView,
    pub revision: RevisionRefView,
    pub plan_id: Seq<char>,
    pub plan_epoch: u64,
    pub graph_version: u64,
    pub location: Seq<char>,
}

impl View for QueueRoute {
    type V = RouteView;
    closed spec fn view(&self) -> RouteView {
        RouteView {
            issuer: self.issuer@,
            recipient: self.recipient@,
            device: self.device@,
            revision: self.revision@,
            plan_id: self.plan_id@,
            plan_epoch: self.plan_epoch,
            graph_version: self.graph_version,
            location: self.location@,
        }
    }
}

/// What a job or an evidence record keeps of its assignment.
struct Binding {
    assignment: DsseEnvelope,
    device_id: String,
    fence: u64,
    epoch: u64,
    expires: u64,
    received: u64,
    route: QueueRoute,
}

pub struct BindingView {
    pub assignment: SignedEnvelopeView,
    pub device_id: Seq<char>,
    pub fence: u64,
    pub epoch: u64,
    pub expires: u64,
    pub received: u64,
    pub route: RouteView,
}

impl View for Binding {
    type V = BindingView;
    closed spec fn view(&self) -> BindingView {
        BindingView {
            assignment: envelope_view(self.assignment),
            device_id: self.device_id@,
            fence: self.fence,
            epoch: self.epoch,
            expires: self.expires,
            received: self.received,
            route: self.route@,
        }
    }
}

struct JobRecord {
    message_id: String,
    probe_id: String,
    status: JobStatus,
    lease: Option<String>,
    binding: Binding,
}

pub struct JobRow {
    pub message_id: Seq<char>,
    pub probe_id: Seq<char>,
    pub status: JobStatus,
    pub lease: Option<Seq<char>>,
    pub binding: BindingView,
}

impl View for JobRecord {
    type V = JobRow;
    closed spec fn view(&self) -> JobRow {
        JobRow {
            message_id: self.message_id@,
            probe_id: self.probe_id@,
            status: self.status,
            lease: crate::monitor::opt_view(self.lease),
            binding: self.binding@,
        }
    }
}

struct OutboxRecord {
    evidence_id: String,
    message_id: String,
    probe_id: String,
    envelope: DsseEnvelope,
    attempts: u32,
    acked: bool,
    retired: bool,
    binding: Binding,
}

pub struct OutRow {
    pub evidence_id: Seq<char>,
    pub message_id: Seq<char>,
    pub probe_id: Seq<char>,
    pub envelope: SignedEnvelopeView,
    pub attempts: u32,
    pub acked: bool,
    pub retired: bool,
    pub binding: BindingView,
}

impl View for OutboxRecord {
    type V = OutRow;
    closed spec fn view(&self) -> OutRow {
        OutRow {
            evidence_id: self.evidence_id@,
            message_id: self.message_id@,
            probe_id: self.probe_id@,
            envelope: envelope_view(self.envelope),
            attempts: self.attempts,
            acked: self.acked,
            retired: self.retired,
            binding: self.binding@,
        }
    }
}

struct FenceRecord {
    device: String,
    fence: u64,
    epoch: u64,
}

pub struct FenceRow {
    pub device: Seq<char>,
    pub fence: u64,
    pub epoch: u64,
}

impl View for FenceRecord {
    type V = FenceRow;
    closed spec fn view(&self) -> FenceRow {
        FenceRow { device: self.device@, fence: self.fence, epoch: self.epoch }
    }
}

pub struct QueueView {
    pub assignments: Seq<MessageEnvelopeView>,
    pub jobs: Seq<JobRow>,
    pub outbox: Seq<OutRow>,
    pub fences: Seq<FenceRow>,
    pub generation: u64,
    pub max: usize,
}

/// The witness's work, kept in memory; a host persists it.
pub struct WitnessQueue {
    assignments: Vec<MessageEnvelope>,
    jobs: Vec<JobRecord>,
    outbox: Vec<OutboxRecord>,
    fences: Vec<FenceRecord>,
    generation: u64,
    max: usize,
}

spec fn job_rows(v: Seq<JobRecord>) -> Seq<JobRow> {
    v.map_values(|j: JobRecord| j@)
}

spec fn out_rows(v: Seq<OutboxRecord>) -> Seq<OutRow> {
    v.map_values(|o: OutboxRecord| o@)
}

spec fn fence_rows(v: Seq<FenceRecord>) -> Seq<FenceRow> {
    v.map_values(|f: FenceRecord| f@)
}

spec fn message_rows(v: Seq<MessageEnvelope>) -> Seq<MessageEnvelopeView> {
    v.map_values(|m: MessageEnvelope| m@)
}

impl View for WitnessQueue {
    type V = QueueView;
    closed spec fn view(&self) -> QueueView {
        QueueView {
            assignments: message_rows(self.assignments@),
            jobs: job_rows(self.jobs@),
            outbox: out_rows(self.outbox@),
            fences: fence_rows(self.fences@),
            generation: self.generation,
            max: self.max,
        }
    }
}

/// The largest count the store holds.
pub const QUEUE_LIMIT: u64 = 9_223_372_036_854_775_807;

/// `k` is the first fence row of the device.
pub open spec fn first_fence(fs: Seq<FenceRow>, device: Seq<char>, k: int) -> bool {
    &&& 0 <= k < fs.len()
    &&& fs[k].device == device
    &&& forall|m: int| 0 <= m < k ==> (#[trigger] fs[m]).device != device
}

/// The device's current fence and epoch, if it has one.
pub open spec fn fence_of(fs: Seq<FenceRow>, device: Seq<char>) -> Option<FenceRow> {
    if exists|k: int| #[trigger] first_fence(fs, device, k) {
        Some(fs[choose|k: int| #[trigger] first_fence(fs, device, k)])
    } else {
        None
    }
}

/// The binding carries the device's current fence and epoch.
pub open spec fn current(fs: Seq<FenceRow>, b: BindingView) -> bool {
    fence_of(fs, b.device_id) matches Some(f) && f.fence == b.fence && f.epoch == b.epoch
}

/// Work or evidence that can no longer run or be delivered: expired, or of
/// a superseded fence or epoch.
pub open spec fn dead(fs: Seq<FenceRow>, b: BindingView, now: u64) -> bool {
    fence_of(fs, b.device_id) is Some && (b.expires <= now || !current(fs, b))
}

/// Unexpired and current.
pub open spec fn live(fs: Seq<FenceRow>, b: BindingView, now: u64) -> bool {
    b.expires > now && current(fs, b)
}

pub open spec fn live_status(s: JobStatus) -> bool {
    s == JobStatus::Pending || s == JobStatus::Running || s == JobStatus::Executing
}

pub open spec fn retire_job(fs: Seq<FenceRow>, j: JobRow, now: u64) -> JobRow {
    if live_status(j.status) && dead(fs, j.binding, now) { JobRow { status: JobStatus::Retired, lease: None, ..j } } else { j }
}

pub open spec fn retire_out(fs: Seq<FenceRow>, o: OutRow, now: u64) -> OutRow {
    if !o.retired && dead(fs, o.binding, now) { OutRow { retired: true, ..o } } else { o }
}

/// The queue with its dead work and evidence retired.
pub open spec fn retired(v: QueueView, now: u64) -> QueueView {
    QueueView {
        jobs: v.jobs.map_values(|j: JobRow| retire_job(v.fences, j, now)),
        outbox: v.outbox.map_values(|o: OutRow| retire_out(v.fences, o, now)),
        ..v
    }
}

/// Live jobs and undelivered evidence together.
pub open spec fn load(v: QueueView) -> nat {
    v.jobs.filter(|j: JobRow| live_status(j.status)).len() + v.outbox.filter(|o: OutRow| !o.acked && !o.retired).len()
}

fn find_fence(fs: &Vec<FenceRecord>, device: &String) -> (r: Option<usize>)
    ensures
        match r {
            Some(k) => first_fence(fence_rows(fs@), device@, k as int),
            None => !exists|k: int| #[trigger] first_fence(fence_rows(fs@), device@, k),
        },
{
    let ghost vs = fence_rows(fs@);
    let mut i: usize = 0;
    while i < fs.len()
        invariant
            i <= fs@.len(),
            vs == fence_rows(fs@),
            forall|m: int| 0 <= m < i ==> (#[trigger] vs[m]).device != device@,
        decreases fs@.len() - i,
    {
        assert(vs[i as int] == fs@[i as int]@);
        if fs[i].device == *device {
            return Some(i);
        }
        i = i + 1;
    }
    None
}

/// The device's current fence and epoch.
fn fence_exec(fs: &Vec<FenceRecord>, device: &String) -> (r: Option<(u64, u64)>)
    ensures
        match fence_of(fence_rows(fs@), device@) {
            Some(f) => r == Some((f.fence, f.epoch)),
            None => r is None,
        },
{
    match find_fence(fs, device) {
        Some(k) => {
            proof {
                let vs = fence_rows(fs@);
                let c = choose|c: int| #[trigger] first_fence(vs, device@, c);
                if c < k {
                    assert(vs[c].device != device@);
                } else if k < c {
                    assert(vs[k as int].device != device@);
                }
                assert(vs[k as int] == fs@[k as int]@);
            }
            Some((fs[k].fence, fs[k].epoch))
        },
        None => None,
    }
}

fn is_dead(fs: &Vec<FenceRecord>, b: &Binding, now: u64) -> (r: bool)
    ensures
        r == dead(fence_rows(fs@), b@, now),
{
    match fence_exec(fs, &b.device_id) {
        Some((f, e)) => b.expires <= now || f != b.fence || e != b.epoch,
        None => false,
    }
}

fn is_live(fs: &Vec<FenceRecord>, b: &Binding, now: u64) -> (r: bool)
    ensures
        r == live(fence_rows(fs@), b@, now),
{
    match fence_exec(fs, &b.device_id) {
        Some((f, e)) => b.expires > now && f == b.fence && e == b.epoch,
        None => false,
    }
}

fn copy_route(r: &QueueRoute) -> (out: QueueRoute)
    ensures
        out@ == r@,
{
    QueueRoute {
        issuer: r.issuer.clone(),
        recipient: r.recipient.clone(),
        device: r.device.duplicate(),
        revision: r.revision.duplicate(),
        plan_id: r.plan_id.clone(),
        plan_epoch: r.plan_epoch,
        graph_version: r.graph_version,
        location: r.location.clone(),
    }
}

fn copy_binding(b: &Binding) -> (out: Binding)
    ensures
        out@ == b@,
{
    let assignment = b.assignment.duplicate();
    proof {
        crate::monitor::lemma_same_envelope_view(assignment, b.assignment);
    }
    Binding {
        assignment,
        device_id: b.device_id.clone(),
        fence: b.fence,
        epoch: b.epoch,
        expires: b.expires,
        received: b.received,
        route: copy_route(&b.route),
    }
}

fn copy_lease(l: &Option<String>) -> (r: Option<String>)
    ensures
        crate::monitor::opt_view(r) == crate::monitor::opt_view(*l),
{
    match l {
        Some(s) => Some(s.clone()),
        None => None,
    }
}

fn job_with(j: &JobRecord, status: JobStatus, lease: Option<String>) -> (r: JobRecord)
    ensures
        r@ == (JobRow { status, lease: crate::monitor::opt_view(lease), ..j@ }),
{
    JobRecord { message_id: j.message_id.clone(), probe_id: j.probe_id.clone(), status, lease, binding: copy_binding(&j.binding) }
}

fn out_with(o: &OutboxRecord, attempts: u32, acked: bool, retired: bool) -> (r: OutboxRecord)
    ensures
        r@ == (OutRow { attempts, acked, retired, ..o@ }),
{
    let envelope = o.envelope.duplicate();
    proof {
        crate::monitor::lemma_same_envelope_view(envelope, o.envelope);
    }
    OutboxRecord {
        evidence_id: o.evidence_id.clone(),
        message_id: o.message_id.clone(),
        probe_id: o.probe_id.clone(),
        envelope,
        attempts,
        acked,
        retired,
        binding: copy_binding(&o.binding),
    }
}

/// `k` is the first evidence record with this ID.
pub open spec fn first_out(rows: Seq<OutRow>, id: Seq<char>, k: int) -> bool {
    &&& 0 <= k < rows.len()
    &&& rows[k].evidence_id == id
    &&& forall|m: int| 0 <= m < k ==> (#[trigger] rows[m]).evidence_id != id
}

fn find_out(rows: &Vec<OutboxRecord>, id: &str) -> (r: Option<usize>)
    ensures
        match r {
            Some(k) => first_out(out_rows(rows@), id@, k as int),
            None => !exists|k: int| #[trigger] first_out(out_rows(rows@), id@, k),
        },
{
    let ghost vs = out_rows(rows@);
    let mut i: usize = 0;
    while i < rows.len()
        invariant
            i <= rows@.len(),
            vs == out_rows(rows@),
            forall|m: int| 0 <= m < i ==> (#[trigger] vs[m]).evidence_id != id@,
        decreases rows@.len() - i,
    {
        assert(vs[i as int] == rows@[i as int]@);
        if crate::text::str_eq(rows[i].evidence_id.as_str(), id) {
            return Some(i);
        }
        i = i + 1;
    }
    None
}

/// The device's fence and epoch set to these.
pub open spec fn set_fence(fs: Seq<FenceRow>, device: Seq<char>, fence: u64, epoch: u64) -> Seq<FenceRow> {
    if exists|k: int| #[trigger] first_fence(fs, device, k) {
        fs.update(choose|k: int| #[trigger] first_fence(fs, device, k), FenceRow { device, fence, epoch })
    } else {
        fs.push(FenceRow { device, fence, epoch })
    }
}

/// The route an assignment travels.
pub open spec fn assignment_route(a: WitnessAssignment) -> RouteView {
    RouteView {
        issuer: a.issuer@,
        recipient: a.recipient@,
        device: a.device@,
        revision: a.revision@,
        plan_id: a.plan_id@,
        plan_epoch: a.plan_epoch,
        graph_version: a.graph_version,
        location: a.probes@[0].source.location@,
    }
}

/// The route the witness's own scope names.
pub open spec fn scope_route(s: AssignmentScope) -> RouteView {
    RouteView {
        issuer: identity_text(s.controller@),
        recipient: identity_text(s.witness@),
        device: s.device@,
        revision: s.revision@,
        plan_id: s.plan_id@,
        plan_epoch: s.plan_epoch,
        graph_version: s.graph_version,
        location: s.location@,
    }
}

pub open spec fn probe_ids_distinct(a: WitnessAssignment) -> bool {
    forall|i: int, j: int| 0 <= i < j < a.probes@.len() ==> (#[trigger] a.probes@[i]).id@ != (#[trigger] a.probes@[j]).id@
}

/// A message that does not carry this sealed assignment now: its version,
/// identifier, validity window or payload digest is wrong, the assignment
/// is not valid now, or the route differs from the assignment's.
pub open spec fn receive_invalid(a: WitnessAssignment, e: MessageEnvelopeView, now: u64) -> bool {
    ||| e.version != PROTOCOL_VERSION
    ||| e.message_id.len() == 0
    ||| byte_len(e.message_id) > 256
    ||| has_control_spec(e.message_id)
    ||| e.created_at_ms > now
    ||| now >= e.expires_at_ms
    ||| a.issued_at_ms > now
    ||| now >= a.expires_at_ms
    ||| payload_digest_spec(e.payload) != e.payload_digest
    ||| e.sender != a.issuer@
    ||| e.recipient != a.recipient@
    ||| e.device != a.device@
    ||| e.plan_epoch != a.plan_epoch
    ||| !probe_ids_distinct(a)
}

/// `k` is the first received message with this ID.
pub open spec fn first_message(rows: Seq<MessageEnvelopeView>, id: Seq<char>, k: int) -> bool {
    &&& 0 <= k < rows.len()
    &&& rows[k].message_id == id
    &&& forall|m: int| 0 <= m < k ==> (#[trigger] rows[m]).message_id != id
}

pub open spec fn new_binding(a: WitnessAssignment, e: MessageEnvelopeView, env: DsseEnvelope, now: u64) -> BindingView {
    BindingView {
        assignment: envelope_view(env),
        device_id: a.device.device_id@,
        fence: a.device.fencing_generation,
        epoch: a.plan_epoch,
        expires: if a.expires_at_ms < e.expires_at_ms { a.expires_at_ms } else { e.expires_at_ms },
        received: now,
        route: assignment_route(a),
    }
}

/// The queue after a message's assignment is recorded with one pending job
/// per probe.
pub open spec fn received_into(w: QueueView, a: WitnessAssignment, e: MessageEnvelopeView, env: DsseEnvelope, now: u64) -> QueueView {
    QueueView {
        assignments: w.assignments.push(e),
        jobs: w.jobs + Seq::new(
            a.probes@.len(),
            |i: int| JobRow {
                message_id: e.message_id,
                probe_id: a.probes@[i].id@,
                status: JobStatus::Pending,
                lease: None,
                binding: new_binding(a, e, env, now),
            },
        ),
        ..w
    }
}

/// (fence, epoch) pairs in lexicographic order.
pub open spec fn pair_lt(a: (u64, u64), b: (u64, u64)) -> bool {
    a.0 < b.0 || (a.0 == b.0 && a.1 < b.1)
}

/// What receiving a message carrying a sealed assignment does, in the
/// order of the checks: an invalid message or a payload other than the
/// sealed envelope is refused; a known message ID is a duplicate when the
/// message is the same and a conflict otherwise; an older fence or epoch is
/// stale; then the device's fence is set, dead work retired, and the
/// assignment recorded if its jobs fit.
pub open spec fn receive_spec(
    v: QueueView,
    a: WitnessAssignment,
    sealed: DsseEnvelope,
    e: MessageEnvelopeView,
    payload: DsseEnvelope,
    now: u64,
) -> Result<(QueueView, Receive), QueueError> {
    if receive_invalid(a, e, now) {
        Err(QueueError::Invalid)
    } else if !same_envelope(payload, sealed) {
        Err(QueueError::Payload)
    } else if exists|k: int| #[trigger] first_message(v.assignments, e.message_id, k) {
        if v.assignments[choose|k: int| #[trigger] first_message(v.assignments, e.message_id, k)] == e {
            Ok((v, Receive::Duplicate))
        } else {
            Err(QueueError::Conflict)
        }
    } else if fence_of(v.fences, a.device.device_id@) matches Some(f)
        && pair_lt((a.device.fencing_generation, a.plan_epoch), (f.fence, f.epoch)) {
        Err(QueueError::Stale)
    } else {
        let w = retired(
            QueueView { fences: set_fence(v.fences, a.device.device_id@, a.device.fencing_generation, a.plan_epoch), ..v },
            now,
        );
        let n = a.probes@.len();
        if n > v.max || load(w) + n > v.max {
            Err(QueueError::Full)
        } else {
            Ok((received_into(w, a, e, sealed, now), Receive::Inserted))
        }
    }
}

fn envelopes_equal(a: &DsseEnvelope, b: &DsseEnvelope) -> (r: bool)
    ensures
        r == same_envelope(*a, *b),
{
    if a.payload_type != b.payload_type || a.payload != b.payload || a.signatures.len() != b.signatures.len() {
        return false;
    }
    let mut i: usize = 0;
    while i < a.signatures.len()
        invariant
            i <= a.signatures@.len(),
            a.signatures@.len() == b.signatures@.len(),
            forall|m: int| 0 <= m < i ==> (#[trigger] a.signatures@[m]).keyid@ == b.signatures@[m].keyid@
                && a.signatures@[m].sig@ == b.signatures@[m].sig@,
        decreases a.signatures@.len() - i,
    {
        if a.signatures[i].keyid != b.signatures[i].keyid || a.signatures[i].sig != b.signatures[i].sig {
            return false;
        }
        i = i + 1;
    }
    true
}

fn find_message(rows: &Vec<MessageEnvelope>, id: &String) -> (r: Option<usize>)
    ensures
        match r {
            Some(k) => first_message(message_rows(rows@), id@, k as int),
            None => !exists|k: int| #[trigger] first_message(message_rows(rows@), id@, k),
        },
{
    let ghost vs = message_rows(rows@);
    let mut i: usize = 0;
    while i < rows.len()
        invariant
            i <= rows@.len(),
            vs == message_rows(rows@),
            forall|m: int| 0 <= m < i ==> (#[trigger] vs[m]).message_id != id@,
        decreases rows@.len() - i,
    {
        assert(vs[i as int] == rows@[i as int]@);
        if rows[i].message_id == *id {
            return Some(i);
        }
        i = i + 1;
    }
    None
}

fn probes_distinct(a: &WitnessAssignment) -> (r: bool)
    ensures
        r == probe_ids_distinct(*a),
{
    let mut i: usize = 0;
    while i < a.probes.len()
        invariant
            i <= a.probes@.len(),
            forall|x: int, y: int| 0 <= x < y < i ==> (#[trigger] a.probes@[x]).id@ != (#[trigger] a.probes@[y]).id@,
        decreases a.probes@.len() - i,
    {
        let mut j: usize = 0;
        while j < i
            invariant
                j <= i < a.probes@.len(),
                forall|x: int| 0 <= x < j ==> (#[trigger] a.probes@[x]).id@ != a.probes@[i as int].id@,
            decreases i - j,
        {
            if a.probes[j].id == a.probes[i].id {
                return false;
            }
            j = j + 1;
        }
        i = i + 1;
    }
    true
}

fn set_fence_exec(fences: &mut Vec<FenceRecord>, device: &String, fence: u64, epoch: u64)
    ensures
        fence_rows(final(fences)@) == set_fence(fence_rows(old(fences)@), device@, fence, epoch),
{
    let ghost before = fence_rows(fences@);
    match find_fence(fences, device) {
        Some(k) => {
            proof {
                let c = choose|c: int| #[trigger] first_fence(before, device@, c);
                if c < k {
                    assert(before[c].device != device@);
                } else if k < c {
                    assert(before[k as int].device != device@);
                }
            }
            fences.set(k, FenceRecord { device: device.clone(), fence, epoch });
            assert(fence_rows(fences@) =~= set_fence(before, device@, fence, epoch));
        },
        None => {
            fences.push(FenceRecord { device: device.clone(), fence, epoch });
            assert(fence_rows(fences@) =~= set_fence(before, device@, fence, epoch));
        },
    }
}

/// The load the queue would carry with these fences, after retirement.
fn load_with(jobs: &Vec<JobRecord>, outbox: &Vec<OutboxRecord>, fs: &Vec<FenceRecord>, now: u64) -> (r: (usize, usize))
    ensures
        r.0 + r.1 == job_rows(jobs@).map_values(|j: JobRow| retire_job(fence_rows(fs@), j, now)).filter(|j: JobRow| live_status(j.status)).len()
            + out_rows(outbox@).map_values(|o: OutRow| retire_out(fence_rows(fs@), o, now)).filter(|o: OutRow| !o.acked && !o.retired).len(),
{
    let ghost fr = fence_rows(fs@);
    let ghost rj = job_rows(jobs@).map_values(|j: JobRow| retire_job(fr, j, now));
    let ghost ro = out_rows(outbox@).map_values(|o: OutRow| retire_out(fr, o, now));
    let ghost pj = |j: JobRow| live_status(j.status);
    let ghost po = |o: OutRow| !o.acked && !o.retired;
    let mut count_jobs: usize = 0;
    let mut i: usize = 0;
    while i < jobs.len()
        invariant
            i <= jobs@.len(),
            fr == fence_rows(fs@),
            rj == job_rows(jobs@).map_values(|j: JobRow| retire_job(fr, j, now)),
            pj == (|j: JobRow| live_status(j.status)),
            count_jobs == rj.subrange(0, i as int).filter(pj).len(),
            count_jobs <= i,
        decreases jobs@.len() - i,
    {
        assert(rj.subrange(0, i + 1) == rj.subrange(0, i as int).push(rj[i as int]));
        proof {
            rj.subrange(0, i as int).lemma_filter_push(rj[i as int], pj);
            assert(job_rows(jobs@)[i as int] == jobs@[i as int]@);
        }
        let j = &jobs[i];
        if (j.status == JobStatus::Pending || j.status == JobStatus::Running || j.status == JobStatus::Executing)
            && !is_dead(fs, &j.binding, now) {
            count_jobs = count_jobs + 1;
        }
        i = i + 1;
    }
    assert(rj.subrange(0, rj.len() as int) =~= rj);
    let mut count_out: usize = 0;
    let mut k: usize = 0;
    while k < outbox.len()
        invariant
            k <= outbox@.len(),
            fr == fence_rows(fs@),
            ro == out_rows(outbox@).map_values(|o: OutRow| retire_out(fr, o, now)),
            po == (|o: OutRow| !o.acked && !o.retired),
            count_out == ro.subrange(0, k as int).filter(po).len(),
            count_out <= k,
        decreases outbox@.len() - k,
    {
        assert(ro.subrange(0, k + 1) == ro.subrange(0, k as int).push(ro[k as int]));
        proof {
            ro.subrange(0, k as int).lemma_filter_push(ro[k as int], po);
            assert(out_rows(outbox@)[k as int] == outbox@[k as int]@);
        }
        let o = &outbox[k];
        if !o.acked && !o.retired && !is_dead(fs, &o.binding, now) {
            count_out = count_out + 1;
        }
        k = k + 1;
    }
    assert(ro.subrange(0, ro.len() as int) =~= ro);
    proof {
        rj.lemma_filter_len(pj);
        ro.lemma_filter_len(po);
    }
    (count_jobs, count_out)
}

/// Claim candidates: pending jobs on the route, live now, ordered by
/// receipt time, message ID, probe ID and position.
pub open spec fn claim_cands(v: QueueView, route: RouteView, now: u64) -> Seq<CandidateView> {
    Seq::new(
        v.jobs.len(),
        |k: int|
            CandidateView {
                at_ms: v.jobs[k].binding.received,
                id: vstd::utf8::encode_utf8(v.jobs[k].message_id),
                sub: vstd::utf8::encode_utf8(v.jobs[k].probe_id),
                seq: k as u64,
                eligible: v.jobs[k].status == JobStatus::Pending && v.jobs[k].binding.route == route
                    && live(v.fences, v.jobs[k].binding, now),
            },
    )
}

/// The check of an assignment envelope said `ok` for this binding's envelope.
pub open spec fn judged<F: Fn(&DsseEnvelope) -> bool>(check: F, b: BindingView, ok: bool) -> bool {
    exists|env: DsseEnvelope| envelope_view(env) == b.assignment && #[trigger] call_ensures(check, (&env,), ok)
}

/// The lease of a claim: the digest of the JSON array of the claim tag,
/// the message ID, the probe ID and the lease generation.
pub open spec fn claim_lease(message_id: Seq<char>, probe_id: Seq<char>, generation: u64) -> Seq<char> {
    payload_digest_spec(
        seq![91u8] + json_str("witness-claim-v1"@) + seq![44u8] + json_str(message_id) + seq![44u8] + json_str(probe_id)
            + seq![44u8] + decimal(generation as nat) + seq![93u8],
    )
}

/// The evidence ID of a lease: the digest of the JSON array of the
/// evidence tag and the lease.
pub open spec fn evidence_id_of(lease: Seq<char>) -> Seq<char> {
    payload_digest_spec(seq![91u8] + json_str("witness-evidence-v1"@) + seq![44u8] + json_str(lease) + seq![93u8])
}

proof fn lemma_claim_cands_retired(v: QueueView, route: RouteView, now: u64)
    ensures
        claim_cands(retired(v, now), route, now) == claim_cands(v, route, now),
{
    let a = claim_cands(retired(v, now), route, now);
    let b = claim_cands(v, route, now);
    assert forall|k: int| 0 <= k < b.len() implies a[k] == b[k] by {
        let j = v.jobs[k];
        assert(retired(v, now).jobs[k] == retire_job(v.fences, j, now));
        if live(v.fences, j.binding, now) {
            assert(!dead(v.fences, j.binding, now));
        }
    }
    assert(a =~= b);
}

fn first_accepted<F: Fn(&DsseEnvelope) -> bool>(jobs: &Vec<JobRecord>, idx: &Vec<usize>, check: &F) -> (r: Option<usize>)
    requires
        forall|e: &DsseEnvelope| #[trigger] check.requires((e,)),
        forall|i: int| 0 <= i < idx@.len() ==> (#[trigger] idx@[i]) < jobs@.len(),
    ensures
        match r {
            Some(i) => i < idx@.len() && judged(*check, job_rows(jobs@)[idx@[i as int] as int].binding, true)
                && forall|m: int| 0 <= m < i ==> judged(*check, job_rows(jobs@)[#[trigger] idx@[m] as int].binding, false),
            None => forall|m: int| 0 <= m < idx@.len() ==> judged(*check, job_rows(jobs@)[#[trigger] idx@[m] as int].binding, false),
        },
{
    let mut i: usize = 0;
    while i < idx.len()
        invariant
            i <= idx@.len(),
            forall|e: &DsseEnvelope| #[trigger] check.requires((e,)),
            forall|i: int| 0 <= i < idx@.len() ==> (#[trigger] idx@[i]) < jobs@.len(),
            forall|m: int| 0 <= m < i ==> judged(*check, job_rows(jobs@)[#[trigger] idx@[m] as int].binding, false),
        decreases idx@.len() - i,
    {
        let k = idx[i];
        let env = &jobs[k].binding.assignment;
        let ok = check(env);
        proof {
            assert(job_rows(jobs@)[k as int] == jobs@[k as int]@);
            assert(envelope_view(*env) == job_rows(jobs@)[k as int].binding.assignment);
            assert(call_ensures(*check, (env,), ok));
        }
        if ok {
            return Some(i);
        }
        i = i + 1;
    }
    None
}

fn claim_lease_exec(message_id: &String, probe_id: &String, generation: u64) -> (r: String)
    ensures
        r@ == claim_lease(message_id@, probe_id@, generation),
{
    let tag = "witness-claim-v1".to_string();
    proof {
        reveal_strlit("witness-claim-v1");
    }
    let mut bytes: Vec<u8> = Vec::new();
    bytes.push(91);
    crate::json::push_json_str(&mut bytes, &tag);
    bytes.push(44);
    crate::json::push_json_str(&mut bytes, message_id);
    bytes.push(44);
    crate::json::push_json_str(&mut bytes, probe_id);
    bytes.push(44);
    let digits = crate::adapters::decimal_digits(generation);
    crate::json::extend_bytes(&mut bytes, digits.as_slice());
    bytes.push(93);
    assert(bytes@ =~= seq![91u8] + json_str("witness-claim-v1"@) + seq![44u8] + json_str(message_id@) + seq![44u8]
        + json_str(probe_id@) + seq![44u8] + decimal(generation as nat) + seq![93u8]);
    payload_digest(bytes.as_slice())
}

fn evidence_id_exec(lease: &String) -> (r: String)
    ensures
        r@ == evidence_id_of(lease@),
{
    let tag = "witness-evidence-v1".to_string();
    proof {
        reveal_strlit("witness-evidence-v1");
    }
    let mut bytes: Vec<u8> = Vec::new();
    bytes.push(91);
    crate::json::push_json_str(&mut bytes, &tag);
    bytes.push(44);
    crate::json::push_json_str(&mut bytes, lease);
    bytes.push(93);
    assert(bytes@ =~= seq![91u8] + json_str("witness-evidence-v1"@) + seq![44u8] + json_str(lease@) + seq![93u8]);
    payload_digest(bytes.as_slice())
}

fn str_bytes(s: &String) -> (r: Vec<u8>)
    ensures
        r@ == vstd::utf8::encode_utf8(s@),
{
    let mut out: Vec<u8> = Vec::new();
    crate::json::extend_bytes(&mut out, s.as_str().as_bytes());
    assert(out@ =~= vstd::utf8::encode_utf8(s@));
    out
}

fn route_is(r: &QueueRoute, s: &AssignmentScope) -> (b: bool)
    ensures
        b == (r@ == scope_route(*s)),
{
    let issuer = s.controller.to_string();
    let recipient = s.witness.to_string();
    r.issuer == issuer && r.recipient == recipient && r.device.same(s.device) && r.revision.same(s.revision)
        && crate::text::str_eq(r.plan_id.as_str(), s.plan_id) && r.plan_epoch == s.plan_epoch
        && r.graph_version == s.graph_version && crate::text::str_eq(r.location.as_str(), s.location)
}

/// `k` is the first job of this message and probe.
pub open spec fn first_job(jobs: Seq<JobRow>, message_id: Seq<char>, probe_id: Seq<char>, k: int) -> bool {
    &&& 0 <= k < jobs.len()
    &&& jobs[k].message_id == message_id && jobs[k].probe_id == probe_id
    &&& forall|m: int| 0 <= m < k ==> !((#[trigger] jobs[m]).message_id == message_id && jobs[m].probe_id == probe_id)
}

/// The work's job is `k`, still holds the work's lease in this status, and
/// is live on the route.
pub open spec fn holds(v: QueueView, m: Seq<char>, p: Seq<char>, lease: Seq<char>, route: RouteView, now: u64, status: JobStatus, k: int) -> bool {
    &&& first_job(v.jobs, m, p, k)
    &&& v.jobs[k].lease == Some(lease)
    &&& v.jobs[k].status == status
    &&& v.jobs[k].binding.route == route
    &&& live(v.fences, v.jobs[k].binding, now)
}

/// The queue with job `k` leased under `lease` at this generation.
pub open spec fn claimed(w: QueueView, k: int, lease: Seq<char>, generation: u64) -> QueueView {
    QueueView {
        jobs: w.jobs.update(k, JobRow { status: JobStatus::Running, lease: Some(lease), ..w.jobs[k] }),
        generation,
        ..w
    }
}

/// The queue with job `k` executing: its running lease consumed.
pub open spec fn started(v: QueueView, k: int) -> QueueView {
    QueueView { jobs: v.jobs.update(k, JobRow { status: JobStatus::Executing, ..v.jobs[k] }), ..v }
}

/// The queue with job `k` done and its signed evidence awaiting delivery.
pub open spec fn completed(v: QueueView, k: int, evidence_id: Seq<char>, out: SignedEnvelopeView) -> QueueView {
    QueueView {
        jobs: v.jobs.update(k, JobRow { status: JobStatus::Done, lease: None, ..v.jobs[k] }),
        outbox: v.outbox.push(
            OutRow {
                evidence_id,
                message_id: v.jobs[k].message_id,
                probe_id: v.jobs[k].probe_id,
                envelope: out,
                attempts: 0,
                acked: false,
                retired: false,
                binding: v.jobs[k].binding,
            },
        ),
        ..v
    }
}

/// Delivery candidates: undelivered, unretired evidence on the route, live
/// now, ordered by evidence ID and position.
pub open spec fn delivery_cands(v: QueueView, route: RouteView, now: u64) -> Seq<CandidateView> {
    Seq::new(
        v.outbox.len(),
        |k: int|
            CandidateView {
                at_ms: 0,
                id: vstd::utf8::encode_utf8(v.outbox[k].evidence_id),
                sub: Seq::empty(),
                seq: k as u64,
                eligible: !v.outbox[k].acked && !v.outbox[k].retired && v.outbox[k].binding.route == route
                    && live(v.fences, v.outbox[k].binding, now),
            },
    )
}

/// The delivery handed out for an evidence record.
pub open spec fn delivered_as(d: Delivery, o: OutRow) -> bool {
    d.evidence_id@ == o.evidence_id && envelope_view(d.envelope) == o.envelope && d.attempts == o.attempts
}

/// Of the first `n` positions of the delivery order `idx`, `picks` are
/// those (in order) whose assignment the check accepted, the rest it
/// refused; the scan stopped at the end of the order or once `limit`
/// deliveries were picked.
pub open spec fn picked_in<F: Fn(&DsseEnvelope) -> bool>(check: F, v: QueueView, idx: Seq<usize>, limit: usize, n: int, picks: Seq<int>) -> bool {
    &&& 0 <= n <= idx.len()
    &&& picks.len() <= limit
    &&& forall|i: int, j: int| 0 <= i < j < picks.len() ==> picks[i] < picks[j]
    &&& forall|i: int| 0 <= i < picks.len() ==> 0 <= #[trigger] picks[i] < n
        && judged(check, v.outbox[idx[picks[i]] as int].binding, true)
    &&& forall|m: int| 0 <= m < n && !picks.contains(m) ==> judged(check, v.outbox[#[trigger] idx[m] as int].binding, false)
    &&& n == idx.len() || (picks.len() == limit && (limit == 0 ==> n == 0) && (limit > 0 ==> picks.last() == n - 1))
}

fn find_job(jobs: &Vec<JobRecord>, m: &String, p: &String) -> (r: Option<usize>)
    ensures
        match r {
            Some(k) => first_job(job_rows(jobs@), m@, p@, k as int),
            None => !exists|k: int| #[trigger] first_job(job_rows(jobs@), m@, p@, k),
        },
{
    let ghost vs = job_rows(jobs@);
    let mut i: usize = 0;
    while i < jobs.len()
        invariant
            i <= jobs@.len(),
            vs == job_rows(jobs@),
            forall|x: int| 0 <= x < i ==> !((#[trigger] vs[x]).message_id == m@ && vs[x].probe_id == p@),
        decreases jobs@.len() - i,
    {
        assert(vs[i as int] == jobs@[i as int]@);
        if jobs[i].message_id == *m && jobs[i].probe_id == *p {
            return Some(i);
        }
        i = i + 1;
    }
    None
}

impl WitnessQueue {
    /// An empty queue holding at most `max` live jobs and undelivered
    /// evidence; `max` must be positive and storable.
    pub fn open(max: usize) -> (r: Result<WitnessQueue, QueueError>)
        ensures
            max == 0 || max > QUEUE_LIMIT ==> r == Err::<WitnessQueue, QueueError>(QueueError::Invalid),
            !(max == 0 || max > QUEUE_LIMIT) ==> (r matches Ok(q) && q@.assignments.len() == 0 && q@.jobs.len() == 0
                && q@.outbox.len() == 0 && q@.fences.len() == 0 && q@.generation == 0 && q@.max == max),
    {
        if max == 0 || max as u64 > QUEUE_LIMIT {
            return Err(QueueError::Invalid);
        }
        Ok(WitnessQueue { assignments: Vec::new(), jobs: Vec::new(), outbox: Vec::new(), fences: Vec::new(), generation: 0, max })
    }

    /// Returns every running or executing job to pending and clears every
    /// lease; the lease generation never resets. Returns how many changed.
    pub fn recover(&mut self) -> (r: Result<usize, QueueError>)
        ensures
            final(self)@ == (QueueView {
                jobs: old(self)@.jobs.map_values(
                    |j: JobRow| if j.status == JobStatus::Running || j.status == JobStatus::Executing {
                        JobRow { status: JobStatus::Pending, lease: None, ..j }
                    } else {
                        j
                    },
                ),
                ..old(self)@
            }),
            r matches Ok(n) && n == old(self)@.jobs.filter(
                |j: JobRow| j.status == JobStatus::Running || j.status == JobStatus::Executing,
            ).len(),
    {
        broadcast use Seq::lemma_filter_push;
        let ghost v = self@;
        let ghost pred = |j: JobRow| j.status == JobStatus::Running || j.status == JobStatus::Executing;
        let ghost target = v.jobs.map_values(
            |j: JobRow| if j.status == JobStatus::Running || j.status == JobStatus::Executing {
                JobRow { status: JobStatus::Pending, lease: None, ..j }
            } else {
                j
            },
        );
        let mut changed: usize = 0;
        let mut i: usize = 0;
        while i < self.jobs.len()
            invariant
                i <= self.jobs@.len(),
                self.jobs@.len() == v.jobs.len(),
                v == old(self)@,
                self.assignments@ == old(self).assignments@,
                self.outbox@ == old(self).outbox@,
                self.fences@ == old(self).fences@,
                self.generation == old(self).generation,
                self.max == old(self).max,
                pred == (|j: JobRow| j.status == JobStatus::Running || j.status == JobStatus::Executing),
                changed == v.jobs.subrange(0, i as int).filter(pred).len(),
                changed <= i,
                target == v.jobs.map_values(
                    |j: JobRow| if j.status == JobStatus::Running || j.status == JobStatus::Executing {
                        JobRow { status: JobStatus::Pending, lease: None, ..j }
                    } else {
                        j
                    },
                ),
                forall|m: int| 0 <= m < i ==> (#[trigger] self.jobs@[m])@ == target[m],
                forall|m: int| i <= m < self.jobs@.len() ==> (#[trigger] self.jobs@[m])@ == v.jobs[m],
            decreases self.jobs@.len() - i,
        {
            assert(self.jobs@[i as int]@ == v.jobs[i as int]);
            assert(v.jobs.subrange(0, i + 1) == v.jobs.subrange(0, i as int).push(v.jobs[i as int]));
            proof {
                v.jobs.subrange(0, i as int).lemma_filter_push(v.jobs[i as int], pred);
            }
            let st = self.jobs[i].status;
            if st == JobStatus::Running || st == JobStatus::Executing {
                let updated = job_with(&self.jobs[i], JobStatus::Pending, None);
                self.jobs.set(i, updated);
                changed = changed + 1;
            }
            i = i + 1;
        }
        assert(v.jobs.subrange(0, v.jobs.len() as int) =~= v.jobs);
        proof {
            assert(self@.jobs =~= target);
            assert(self@.assignments =~= v.assignments);
            assert(self@.outbox =~= v.outbox);
            assert(self@.fences =~= v.fences);
        }
        Ok(changed)
    }

    /// Counts another delivery attempt of undelivered, unretired evidence;
    /// false when there is none with this ID or its count cannot grow.
    pub fn retry(&mut self, id: &str) -> (r: Result<bool, QueueError>)
        ensures
            ({
                let v = old(self)@;
                if exists|k: int| #[trigger] first_out(v.outbox, id@, k) {
                    let k = choose|k: int| #[trigger] first_out(v.outbox, id@, k);
                    let o = v.outbox[k];
                    if !o.acked && !o.retired && o.attempts < u32::MAX {
                        r == Ok::<bool, QueueError>(true) && final(self)@ == QueueView {
                            outbox: v.outbox.update(k, OutRow { attempts: (o.attempts + 1) as u32, ..o }),
                            ..v
                        }
                    } else {
                        r == Ok::<bool, QueueError>(false) && final(self)@ == v
                    }
                } else {
                    r == Ok::<bool, QueueError>(false) && final(self)@ == v
                }
            }),
    {
        let ghost v = self@;
        let k = match find_out(&self.outbox, id) {
            Some(k) => k,
            None => {
                return Ok(false);
            },
        };
        proof {
            let c = choose|c: int| #[trigger] first_out(v.outbox, id@, c);
            if c < k {
                assert(v.outbox[c].evidence_id != id@);
            } else if k < c {
                assert(v.outbox[k as int].evidence_id != id@);
            }
            assert(v.outbox[k as int] == self.outbox@[k as int]@);
        }
        let o = &self.outbox[k];
        if o.acked || o.retired || o.attempts == u32::MAX {
            return Ok(false);
        }
        let updated = out_with(o, o.attempts + 1, o.acked, o.retired);
        self.outbox.set(k, updated);
        proof {
            let o2 = v.outbox[k as int];
            assert(self@.outbox =~= v.outbox.update(k as int, OutRow { attempts: (o2.attempts + 1) as u32, ..o2 }));
            assert(self@.jobs =~= v.jobs);
            assert(self@.assignments =~= v.assignments);
            assert(self@.fences =~= v.fences);
        }
        Ok(true)
    }

    /// Marks evidence delivered; false when there is none with this ID or it
    /// was already acknowledged.
    pub fn acknowledge(&mut self, id: &str) -> (r: Result<bool, QueueError>)
        ensures
            ({
                let v = old(self)@;
                if exists|k: int| #[trigger] first_out(v.outbox, id@, k) {
                    let k = choose|k: int| #[trigger] first_out(v.outbox, id@, k);
                    let o = v.outbox[k];
                    if !o.acked {
                        r == Ok::<bool, QueueError>(true) && final(self)@ == QueueView {
                            outbox: v.outbox.update(k, OutRow { acked: true, ..o }),
                            ..v
                        }
                    } else {
                        r == Ok::<bool, QueueError>(false) && final(self)@ == v
                    }
                } else {
                    r == Ok::<bool, QueueError>(false) && final(self)@ == v
                }
            }),
    {
        let ghost v = self@;
        let k = match find_out(&self.outbox, id) {
            Some(k) => k,
            None => {
                return Ok(false);
            },
        };
        proof {
            let c = choose|c: int| #[trigger] first_out(v.outbox, id@, c);
            if c < k {
                assert(v.outbox[c].evidence_id != id@);
            } else if k < c {
                assert(v.outbox[k as int].evidence_id != id@);
            }
            assert(v.outbox[k as int] == self.outbox@[k as int]@);
        }
        let o = &self.outbox[k];
        if o.acked {
            return Ok(false);
        }
        let updated = out_with(o, o.attempts, true, o.retired);
        self.outbox.set(k, updated);
        proof {
            let o2 = v.outbox[k as int];
            assert(self@.outbox =~= v.outbox.update(k as int, OutRow { acked: true, ..o2 }));
            assert(self@.jobs =~= v.jobs);
            assert(self@.assignments =~= v.assignments);
            assert(self@.fences =~= v.fences);
        }
        Ok(true)
    }
    /// Retires the work and evidence that can no longer run or be delivered.
    fn retire(&mut self, now: u64)
        ensures
            final(self)@ == retired(old(self)@, now),
    {
        let ghost v = self@;
        let mut i: usize = 0;
        while i < self.jobs.len()
            invariant
                i <= self.jobs@.len(),
                self.jobs@.len() == v.jobs.len(),
                v == old(self)@,
                self.assignments@ == old(self).assignments@,
                self.outbox@ == old(self).outbox@,
                self.fences@ == old(self).fences@,
                self.generation == old(self).generation,
                self.max == old(self).max,
                forall|m: int| 0 <= m < i ==> (#[trigger] self.jobs@[m])@ == retire_job(v.fences, v.jobs[m], now),
                forall|m: int| i <= m < self.jobs@.len() ==> (#[trigger] self.jobs@[m])@ == v.jobs[m],
            decreases self.jobs@.len() - i,
        {
            assert(self.jobs@[i as int]@ == v.jobs[i as int]);
            let st = self.jobs[i].status;
            if (st == JobStatus::Pending || st == JobStatus::Running || st == JobStatus::Executing)
                && is_dead(&self.fences, &self.jobs[i].binding, now) {
                let updated = job_with(&self.jobs[i], JobStatus::Retired, None);
                self.jobs.set(i, updated);
            }
            i = i + 1;
        }
        let mut k: usize = 0;
        while k < self.outbox.len()
            invariant
                k <= self.outbox@.len(),
                self.outbox@.len() == v.outbox.len(),
                v == old(self)@,
                self.assignments@ == old(self).assignments@,
                self.fences@ == old(self).fences@,
                self.generation == old(self).generation,
                self.max == old(self).max,
                forall|m: int| 0 <= m < self.jobs@.len() ==> (#[trigger] self.jobs@[m])@ == retire_job(v.fences, v.jobs[m], now),
                self.jobs@.len() == v.jobs.len(),
                forall|m: int| 0 <= m < k ==> (#[trigger] self.outbox@[m])@ == retire_out(v.fences, v.outbox[m], now),
                forall|m: int| k <= m < self.outbox@.len() ==> (#[trigger] self.outbox@[m])@ == v.outbox[m],
            decreases self.outbox@.len() - k,
        {
            assert(self.outbox@[k as int]@ == v.outbox[k as int]);
            if !self.outbox[k].retired && is_dead(&self.fences, &self.outbox[k].binding, now) {
                let o = &self.outbox[k];
                let updated = out_with(o, o.attempts, o.acked, true);
                self.outbox.set(k, updated);
            }
            k = k + 1;
        }
        proof {
            let w = retired(v, now);
            assert(self@.jobs =~= w.jobs);
            assert(self@.outbox =~= w.outbox);
            assert(self@.assignments =~= w.assignments);
            assert(self@.fences =~= w.fences);
        }
    }

    /// Records a message carrying a sealed assignment, after checking it
    /// against the assignment; `payload` is the signed envelope the message
    /// payload decodes to. A duplicate changes nothing; every refusal
    /// changes nothing.
    pub fn receive(&mut self, sealed: &VerifiedAssignment, envelope: &MessageEnvelope, payload: &DsseEnvelope, now: u64)
        -> (r: Result<Receive, QueueError>)
        ensures
            match receive_spec(old(self)@, sealed.spec_assignment(), sealed.spec_envelope(), envelope@, *payload, now) {
                Ok((w, o)) => r == Ok::<Receive, QueueError>(o) && final(self)@ == w,
                Err(x) => r == Err::<Receive, QueueError>(x) && final(self)@ == old(self)@,
            },
    {
        let ghost v = self@;
        let a = sealed.assignment();
        let e = envelope;
        let digest = payload_digest(e.payload.as_slice());
        if e.version != PROTOCOL_VERSION || e.message_id.as_str().unicode_len() == 0 || e.message_id.as_str().as_bytes().len() > 256
            || has_control(e.message_id.as_str()) || e.created_at_ms > now || now >= e.expires_at_ms || a.issued_at_ms > now
            || now >= a.expires_at_ms || digest != e.payload_digest || e.sender != a.issuer || e.recipient != a.recipient
            || !e.device.same(&a.device) || e.plan_epoch != a.plan_epoch || !probes_distinct(a) {
            return Err(QueueError::Invalid);
        }
        if !envelopes_equal(payload, sealed.envelope()) {
            return Err(QueueError::Payload);
        }
        match find_message(&self.assignments, &e.message_id) {
            Some(k) => {
                proof {
                    let c = choose|c: int| #[trigger] first_message(v.assignments, e@.message_id, c);
                    if c < k {
                        assert(v.assignments[c].message_id != e@.message_id);
                    } else if k < c {
                        assert(v.assignments[k as int].message_id != e@.message_id);
                    }
                    assert(v.assignments[k as int] == self.assignments@[k as int]@);
                }
                if self.assignments[k].same(e) {
                    return Ok(Receive::Duplicate);
                }
                return Err(QueueError::Conflict);
            },
            None => {},
        }
        let fence = a.device.fencing_generation;
        let epoch = a.plan_epoch;
        match fence_exec(&self.fences, &a.device.device_id) {
            Some((f, ep)) => {
                if fence < f || (fence == f && epoch < ep) {
                    return Err(QueueError::Stale);
                }
            },
            None => {},
        }
        let mut fences: Vec<FenceRecord> = Vec::new();
        let mut i: usize = 0;
        while i < self.fences.len()
            invariant
                i <= self.fences@.len(),
                fences@.len() == i,
                forall|m: int| 0 <= m < i ==> (#[trigger] fences@[m])@ == self.fences@[m]@,
            decreases self.fences@.len() - i,
        {
            let f = &self.fences[i];
            fences.push(FenceRecord { device: f.device.clone(), fence: f.fence, epoch: f.epoch });
            i = i + 1;
        }
        assert(fence_rows(fences@) =~= v.fences);
        set_fence_exec(&mut fences, &a.device.device_id, fence, epoch);
        let n = a.probes.len();
        let (live_jobs, undelivered) = load_with(&self.jobs, &self.outbox, &fences, now);
        proof {
            let w = retired(QueueView { fences: fence_rows(fences@), ..v }, now);
            assert(load(w) == live_jobs + undelivered);
        }
        if n > self.max || live_jobs > self.max - n || undelivered > self.max - n - live_jobs {
            return Err(QueueError::Full);
        }
        self.fences = fences;
        self.retire(now);
        let ghost w = self@;
        let expires = if a.expires_at_ms < e.expires_at_ms { a.expires_at_ms } else { e.expires_at_ms };
        self.assignments.push(e.duplicate());
        let mut j: usize = 0;
        while j < a.probes.len()
            invariant
                j <= a.probes@.len(),
                *a == sealed.spec_assignment(),
                fence == a.device.fencing_generation,
                epoch == a.plan_epoch,
                expires == (if a.expires_at_ms < e.expires_at_ms { a.expires_at_ms } else { e.expires_at_ms }),
                self.jobs@.len() == w.jobs.len() + j,
                forall|m: int| 0 <= m < w.jobs.len() ==> (#[trigger] self.jobs@[m])@ == w.jobs[m],
                forall|m: int| 0 <= m < j ==> (#[trigger] self.jobs@[w.jobs.len() + m])@ == (JobRow {
                    message_id: e@.message_id,
                    probe_id: a.probes@[m].id@,
                    status: JobStatus::Pending,
                    lease: None,
                    binding: new_binding(*a, e@, sealed.spec_envelope(), now),
                }),
                message_rows(self.assignments@) == w.assignments.push(e@),
                fence_rows(self.fences@) == w.fences,
                out_rows(self.outbox@) == w.outbox,
                self.generation == w.generation,
                self.max == w.max,
            decreases a.probes@.len() - j,
        {
            let assignment = sealed.envelope().duplicate();
            proof {
                crate::monitor::lemma_same_envelope_view(assignment, sealed.spec_envelope());
            }
            let route = QueueRoute {
                issuer: a.issuer.clone(),
                recipient: a.recipient.clone(),
                device: a.device.duplicate(),
                revision: a.revision.duplicate(),
                plan_id: a.plan_id.clone(),
                plan_epoch: a.plan_epoch,
                graph_version: a.graph_version,
                location: a.probes[0].source.location.clone(),
            };
            self.jobs.push(JobRecord {
                message_id: e.message_id.clone(),
                probe_id: a.probes[j].id.clone(),
                status: JobStatus::Pending,
                lease: None,
                binding: Binding {
                    assignment,
                    device_id: a.device.device_id.clone(),
                    fence,
                    epoch,
                    expires,
                    received: now,
                    route,
                },
            });
            j = j + 1;
        }
        proof {
            let target = received_into(w, *a, e@, sealed.spec_envelope(), now);
            assert forall|m: int| 0 <= m < self.jobs@.len() implies #[trigger] job_rows(self.jobs@)[m] == target.jobs[m] by {
                if m >= w.jobs.len() {
                    assert(self.jobs@[w.jobs.len() + (m - w.jobs.len())]@ == target.jobs[m]);
                }
            }
            assert(self@.jobs =~= target.jobs);
            assert(self@.assignments =~= target.assignments);
            assert(self@.outbox =~= target.outbox);
            assert(self@.fences =~= target.fences);
        }
        Ok(Receive::Inserted)
    }
    /// The indices of the claimable jobs, in claim order.
    fn claim_order(&self, scope: &AssignmentScope, now: u64) -> (r: Vec<usize>)
        ensures
            first_in_order(claim_cands(self@, scope_route(*scope), now), r@, self@.jobs.len() as usize),
            forall|i: int| 0 <= i < r@.len() ==> (#[trigger] r@[i]) < self@.jobs.len(),
    {
        let ghost v = self@;
        let ghost target = claim_cands(v, scope_route(*scope), now);
        let mut cs: Vec<crate::storage::Candidate> = Vec::new();
        let mut k: usize = 0;
        while k < self.jobs.len()
            invariant
                k <= self.jobs@.len(),
                v == self@,
                target == claim_cands(v, scope_route(*scope), now),
                target.len() == self.jobs@.len(),
                cs@.len() == k,
                crate::storage::view_cands(cs@) == target.subrange(0, k as int),
            decreases self.jobs@.len() - k,
        {
            let j = &self.jobs[k];
            assert(v.jobs[k as int] == j@);
            let eligible = j.status == JobStatus::Pending && route_is(&j.binding.route, scope) && is_live(&self.fences, &j.binding, now);
            cs.push(crate::storage::Candidate {
                at_ms: j.binding.received,
                id: str_bytes(&j.message_id),
                sub: str_bytes(&j.probe_id),
                seq: k as u64,
                eligible,
            });
            assert(crate::storage::view_cands(cs@) =~= target.subrange(0, k + 1));
            k = k + 1;
        }
        assert(target.subrange(0, self.jobs@.len() as int) =~= target);
        proof {
            assert forall|i: int, j: int| 0 <= i < j < target.len() implies crate::storage::cand_key(#[trigger] target[i])
                != crate::storage::cand_key(#[trigger] target[j]) by {
                assert(target[i].seq == i as u64 && target[j].seq == j as u64);
            }
        }
        let idx = crate::storage::order_candidates(&cs, self.jobs.len());
        proof {
            assert forall|i: int| 0 <= i < idx@.len() implies (#[trigger] idx@[i]) < self@.jobs.len() by {
                assert(idx@[i] < target.len());
            }
        }
        idx
    }

    /// Leases the first claimable job on the scope's route whose assignment
    /// `still_valid` accepts, after retiring dead work. Each claim takes the
    /// next lease generation, which never repeats; a claim when generations
    /// are exhausted is refused and changes nothing.
    pub fn claim<F: Fn(&DsseEnvelope) -> bool>(&mut self, now: u64, scope: &AssignmentScope, still_valid: F)
        -> (r: Result<Option<Work>, QueueError>)
        requires
            forall|e: &DsseEnvelope| #[trigger] still_valid.requires((e,)),
        ensures
            ({
                let v = old(self)@;
                let w = retired(v, now);
                exists|idx: Seq<usize>| #[trigger] first_in_order(claim_cands(v, scope_route(*scope), now), idx, v.jobs.len() as usize)
                    && match r {
                    Ok(None) => final(self)@ == w && forall|m: int| 0 <= m < idx.len()
                        ==> judged(still_valid, v.jobs[#[trigger] idx[m] as int].binding, false),
                    Ok(Some(work)) => exists|i: int| 0 <= i < idx.len()
                        && judged(still_valid, v.jobs[idx[i] as int].binding, true)
                        && (forall|m: int| 0 <= m < i ==> judged(still_valid, v.jobs[#[trigger] idx[m] as int].binding, false))
                        && v.generation < QUEUE_LIMIT
                        && work.message_id@ == v.jobs[idx[i] as int].message_id
                        && work.probe_id@ == v.jobs[idx[i] as int].probe_id
                        && work.lease@ == claim_lease(work.message_id@, work.probe_id@, (v.generation + 1) as u64)
                        && final(self)@ == claimed(w, idx[i] as int, work.lease@, (v.generation + 1) as u64),
                    Err(x) => x == QueueError::Invalid && v.generation >= QUEUE_LIMIT && final(self)@ == v,
                }
            }),
    {
        let ghost v = self@;
        let idx = self.claim_order(scope, now);
        let found = first_accepted(&self.jobs, &idx, &still_valid);
        match found {
            None => {
                self.retire(now);
                Ok(None)
            },
            Some(i) => {
                if self.generation >= QUEUE_LIMIT {
                    return Err(QueueError::Invalid);
                }
                let k = idx[i];
                proof {
                    lemma_claim_cands_retired(v, scope_route(*scope), now);
                    assert(idx@[i as int] < claim_cands(v, scope_route(*scope), now).len());
                }
                self.retire(now);
                let ghost w = self@;
                assert(w.jobs[k as int] == retire_job(v.fences, v.jobs[k as int], now));
                assert(claim_cands(v, scope_route(*scope), now)[k as int].eligible);
                assert(!dead(v.fences, v.jobs[k as int].binding, now));
                assert(w.jobs[k as int] == v.jobs[k as int]);
                let generation = self.generation + 1;
                assert(w.jobs[k as int] == self.jobs@[k as int]@);
                let message_id = self.jobs[k].message_id.clone();
                let probe_id = self.jobs[k].probe_id.clone();
                let lease = claim_lease_exec(&message_id, &probe_id, generation);
                let updated = job_with(&self.jobs[k], JobStatus::Running, Some(lease.clone()));
                self.jobs.set(k, updated);
                self.generation = generation;
                proof {
                    let target = QueueView {
                        jobs: w.jobs.update(k as int, JobRow { status: JobStatus::Running, lease: Some(lease@), ..w.jobs[k as int] }),
                        generation: generation,
                        ..w
                    };
                    assert(self@.jobs =~= target.jobs);
                    assert(self@.assignments =~= target.assignments);
                    assert(self@.outbox =~= target.outbox);
                    assert(self@.fences =~= target.fences);
                }
                Ok(Some(Work { message_id, probe_id, lease }))
            },
        }
    }
    /// The indices of the deliverable evidence, in delivery order.
    fn delivery_order(&self, scope: &AssignmentScope, now: u64) -> (r: Vec<usize>)
        ensures
            first_in_order(delivery_cands(self@, scope_route(*scope), now), r@, self@.outbox.len() as usize),
            forall|i: int| 0 <= i < r@.len() ==> (#[trigger] r@[i]) < self@.outbox.len(),
    {
        let ghost v = self@;
        let ghost target = delivery_cands(v, scope_route(*scope), now);
        let mut cs: Vec<crate::storage::Candidate> = Vec::new();
        let mut k: usize = 0;
        while k < self.outbox.len()
            invariant
                k <= self.outbox@.len(),
                v == self@,
                target == delivery_cands(v, scope_route(*scope), now),
                target.len() == self.outbox@.len(),
                cs@.len() == k,
                crate::storage::view_cands(cs@) == target.subrange(0, k as int),
            decreases self.outbox@.len() - k,
        {
            let o = &self.outbox[k];
            assert(v.outbox[k as int] == o@);
            let eligible = !o.acked && !o.retired && route_is(&o.binding.route, scope) && is_live(&self.fences, &o.binding, now);
            cs.push(crate::storage::Candidate { at_ms: 0, id: str_bytes(&o.evidence_id), sub: Vec::new(), seq: k as u64, eligible });
            assert(crate::storage::view_cands(cs@) =~= target.subrange(0, k + 1));
            k = k + 1;
        }
        assert(target.subrange(0, self.outbox@.len() as int) =~= target);
        proof {
            assert forall|i: int, j: int| 0 <= i < j < target.len() implies crate::storage::cand_key(#[trigger] target[i])
                != crate::storage::cand_key(#[trigger] target[j]) by {
                assert(target[i].seq == i as u64 && target[j].seq == j as u64);
            }
        }
        let idx = crate::storage::order_candidates(&cs, self.outbox.len());
        proof {
            assert forall|i: int| 0 <= i < idx@.len() implies (#[trigger] idx@[i]) < self@.outbox.len() by {
                assert(idx@[i] < target.len());
            }
        }
        idx
    }

    /// Up to `limit` undelivered evidence records on the scope's route, in
    /// evidence-ID order, whose assignment `still_valid` still accepts;
    /// dead work and evidence are retired first, and nothing is deleted.
    pub fn deliveries<F: Fn(&DsseEnvelope) -> bool>(&mut self, now: u64, scope: &AssignmentScope, limit: usize, still_valid: F)
        -> (r: Result<Vec<Delivery>, QueueError>)
        requires
            forall|e: &DsseEnvelope| #[trigger] still_valid.requires((e,)),
        ensures
            ({
                let v = old(self)@;
                exists|idx: Seq<usize>, n: int, picks: Seq<int>|
                    first_in_order(delivery_cands(v, scope_route(*scope), now), idx, v.outbox.len() as usize)
                    && #[trigger] picked_in(still_valid, v, idx, limit, n, picks)
                    && (r matches Ok(ds) && ds@.len() == picks.len()
                    && forall|i: int| 0 <= i < ds@.len() ==> delivered_as(#[trigger] ds@[i], v.outbox[idx[picks[i]] as int]))
            }),
            final(self)@ == retired(old(self)@, now),
    {
        let ghost v = self@;
        let idx = self.delivery_order(scope, now);
        let mut out: Vec<Delivery> = Vec::new();
        let ghost mut picks: Seq<int> = Seq::empty();
        let mut n: usize = 0;
        while n < idx.len() && out.len() < limit
            invariant
                v == self@,
                n <= idx@.len(),
                forall|e: &DsseEnvelope| #[trigger] still_valid.requires((e,)),
                forall|i: int| 0 <= i < idx@.len() ==> (#[trigger] idx@[i]) < self@.outbox.len(),
                out@.len() == picks.len(),
                picks.len() <= limit,
                forall|i: int, j: int| 0 <= i < j < picks.len() ==> picks[i] < picks[j],
                forall|i: int| 0 <= i < picks.len() ==> 0 <= #[trigger] picks[i] < n
                    && judged(still_valid, v.outbox[idx@[picks[i]] as int].binding, true),
                forall|m: int| 0 <= m < n && !picks.contains(m) ==> judged(still_valid, v.outbox[#[trigger] idx@[m] as int].binding, false),
                forall|i: int| 0 <= i < out@.len() ==> delivered_as(#[trigger] out@[i], v.outbox[idx@[picks[i]] as int]),
                limit == 0 ==> n == 0,
                picks.len() == limit && limit > 0 ==> picks.last() == n - 1,
            decreases idx@.len() - n,
        {
            let k = idx[n];
            let o = &self.outbox[k];
            proof {
                assert(v.outbox[k as int] == self.outbox@[k as int]@);
            }
            let ok = still_valid(&o.binding.assignment);
            proof {
                assert(envelope_view(o.binding.assignment) == v.outbox[k as int].binding.assignment);
                assert(call_ensures(still_valid, (&o.binding.assignment,), ok));
            }
            if ok {
                let envelope = o.envelope.duplicate();
                proof {
                    crate::monitor::lemma_same_envelope_view(envelope, o.envelope);
                }
                out.push(Delivery { evidence_id: o.evidence_id.clone(), envelope, attempts: o.attempts });
                proof {
                    let old_picks = picks;
                    picks = picks.push(n as int);
                    assert forall|m: int| 0 <= m < n + 1 && !picks.contains(m) implies judged(
                        still_valid,
                        v.outbox[#[trigger] idx@[m] as int].binding,
                        false,
                    ) by {
                        assert(picks[old_picks.len() as int] == n as int);
                        if m == n {
                            assert(picks.contains(m));
                        }
                        if old_picks.contains(m) {
                            let c = choose|c: int| 0 <= c < old_picks.len() && old_picks[c] == m;
                            assert(picks[c] == m);
                            assert(picks.contains(m));
                        }
                    }
                    assert forall|i: int| 0 <= i < out@.len() implies delivered_as(#[trigger] out@[i], v.outbox[idx@[picks[i]] as int]) by {
                        if i < old_picks.len() {
                            assert(picks[i] == old_picks[i]);
                        }
                    }
                }
            } else {
                proof {
                    assert forall|m: int| 0 <= m < n + 1 && !picks.contains(m) implies judged(
                        still_valid,
                        v.outbox[#[trigger] idx@[m] as int].binding,
                        false,
                    ) by {}
                }
            }
            n = n + 1;
        }
        self.retire(now);
        proof {
            assert(picked_in(still_valid, v, idx@, limit, n as int, picks));
        }
        Ok(out)
    }

    /// The job holding this work's lease in `status`, live on the route.
    fn held(&self, work: &Work, scope: &AssignmentScope, now: u64, status: JobStatus) -> (r: Option<usize>)
        ensures
            match r {
                Some(k) => holds(self@, work.message_id@, work.probe_id@, work.lease@, scope_route(*scope), now, status, k as int),
                None => !exists|k: int| #[trigger] holds(self@, work.message_id@, work.probe_id@, work.lease@, scope_route(*scope), now, status, k),
            },
    {
        let ghost v = self@;
        let k = match find_job(&self.jobs, &work.message_id, &work.probe_id) {
            Some(k) => k,
            None => {
                return None;
            },
        };
        proof {
            assert forall|c: int| #[trigger] first_job(v.jobs, work.message_id@, work.probe_id@, c) implies c == k by {
                if c < k {
                    assert(!(v.jobs[c].message_id == work.message_id@ && v.jobs[c].probe_id == work.probe_id@));
                } else if k < c {
                    assert(v.jobs[k as int].message_id == work.message_id@);
                }
            }
            assert(v.jobs[k as int] == self.jobs@[k as int]@);
        }
        let j = &self.jobs[k];
        let lease_ok = match &j.lease {
            Some(l) => *l == work.lease,
            None => false,
        };
        if lease_ok && j.status == status && route_is(&j.binding.route, scope) && is_live(&self.fences, &j.binding, now) {
            Some(k)
        } else {
            None
        }
    }

    /// The assignment envelope of work still held under its running lease,
    /// for the host to verify again before the observation starts.
    pub fn lease_assignment(&self, work: &Work, scope: &AssignmentScope, now: u64) -> (r: Result<DsseEnvelope, QueueError>)
        ensures
            ({
                let v = self@;
                let route = scope_route(*scope);
                if exists|k: int| #[trigger] holds(v, work.message_id@, work.probe_id@, work.lease@, route, now, JobStatus::Running, k) {
                    let k = choose|k: int| #[trigger] holds(v, work.message_id@, work.probe_id@, work.lease@, route, now, JobStatus::Running, k);
                    r matches Ok(env) && envelope_view(env) == v.jobs[k].binding.assignment
                } else {
                    r == Err::<DsseEnvelope, QueueError>(QueueError::Stale)
                }
            }),
    {
        match self.held(work, scope, now, JobStatus::Running) {
            Some(k) => {
                proof {
                    assert(self@.jobs[k as int] == self.jobs@[k as int]@);
                }
                let env = self.jobs[k].binding.assignment.duplicate();
                proof {
                    crate::monitor::lemma_same_envelope_view(env, self.jobs@[k as int].binding.assignment);
                }
                Ok(env)
            },
            None => Err(QueueError::Stale),
        }
    }

    /// Consumes the running lease before the observation starts, so the
    /// same work cannot be observed twice; returns the evidence ID the
    /// lease determines.
    pub fn start(&mut self, work: &Work, scope: &AssignmentScope, now: u64) -> (r: Result<String, QueueError>)
        ensures
            ({
                let v = old(self)@;
                let route = scope_route(*scope);
                if exists|k: int| #[trigger] holds(v, work.message_id@, work.probe_id@, work.lease@, route, now, JobStatus::Running, k) {
                    let k = choose|k: int| #[trigger] holds(v, work.message_id@, work.probe_id@, work.lease@, route, now, JobStatus::Running, k);
                    r matches Ok(id) && id@ == evidence_id_of(work.lease@) && final(self)@ == started(v, k)
                } else {
                    r == Err::<String, QueueError>(QueueError::Stale) && final(self)@ == v
                }
            }),
    {
        let ghost v = self@;
        match self.held(work, scope, now, JobStatus::Running) {
            Some(k) => {
                assert(v.jobs[k as int] == self.jobs@[k as int]@);
                let lease = copy_lease(&self.jobs[k].lease);
                let updated = job_with(&self.jobs[k], JobStatus::Executing, lease);
                self.jobs.set(k, updated);
                proof {
                    let target = QueueView { jobs: v.jobs.update(k as int, JobRow { status: JobStatus::Executing, ..v.jobs[k as int] }), ..v };
                    assert(self@.jobs =~= target.jobs);
                    assert(self@.assignments =~= target.assignments);
                    assert(self@.outbox =~= target.outbox);
                    assert(self@.fences =~= target.fences);
                }
                Ok(evidence_id_exec(&work.lease))
            },
            None => Err(QueueError::Stale),
        }
    }

    /// Completes executing work with its signed evidence: the job is done
    /// and the evidence awaits delivery. Work whose lease was lost, recovered
    /// or fenced during the observation is stale and records nothing.
    pub fn complete(&mut self, work: &Work, scope: &AssignmentScope, now: u64, evidence_id: &str, out: &DsseEnvelope)
        -> (r: Result<(), QueueError>)
        ensures
            ({
                let v = old(self)@;
                let route = scope_route(*scope);
                if exists|k: int| #[trigger] holds(v, work.message_id@, work.probe_id@, work.lease@, route, now, JobStatus::Executing, k) {
                    let k = choose|k: int| #[trigger] holds(v, work.message_id@, work.probe_id@, work.lease@, route, now, JobStatus::Executing, k);
                    if exists|x: int| #[trigger] first_out(v.outbox, evidence_id@, x) {
                        r == Err::<(), QueueError>(QueueError::Invalid) && final(self)@ == v
                    } else {
                        r is Ok && final(self)@ == completed(v, k, evidence_id@, envelope_view(*out))
                    }
                } else {
                    r == Err::<(), QueueError>(QueueError::Stale) && final(self)@ == v
                }
            }),
    {
        let ghost v = self@;
        let k = match self.held(work, scope, now, JobStatus::Executing) {
            Some(k) => k,
            None => {
                return Err(QueueError::Stale);
            },
        };
        match find_out(&self.outbox, evidence_id) {
            Some(_) => {
                return Err(QueueError::Invalid);
            },
            None => {},
        }
        assert(v.jobs[k as int] == self.jobs@[k as int]@);
        let envelope = out.duplicate();
        proof {
            crate::monitor::lemma_same_envelope_view(envelope, *out);
        }
        let record = OutboxRecord {
            evidence_id: evidence_id.to_string(),
            message_id: self.jobs[k].message_id.clone(),
            probe_id: self.jobs[k].probe_id.clone(),
            envelope,
            attempts: 0,
            acked: false,
            retired: false,
            binding: copy_binding(&self.jobs[k].binding),
        };
        let updated = job_with(&self.jobs[k], JobStatus::Done, None);
        self.jobs.set(k, updated);
        self.outbox.push(record);
        proof {
            let j = v.jobs[k as int];
            let target = QueueView {
                jobs: v.jobs.update(k as int, JobRow { status: JobStatus::Done, lease: None, ..j }),
                outbox: v.outbox.push(
                    OutRow {
                        evidence_id: evidence_id@,
                        message_id: j.message_id,
                        probe_id: j.probe_id,
                        envelope: envelope_view(*out),
                        attempts: 0,
                        acked: false,
                        retired: false,
                        binding: j.binding,
                    },
                ),
                ..v
            };
            assert(self@.jobs =~= target.jobs);
            assert(self@.outbox =~= target.outbox);
            assert(self@.assignments =~= target.assignments);
            assert(self@.fences =~= target.fences);
        }
        Ok(())
    }
}

/// Each job is keyed by its message and probe, and belongs to a received
/// message.
pub open spec fn well_formed(v: QueueView) -> bool {
    &&& forall|i: int, j: int| 0 <= i < j < v.jobs.len() ==> !((#[trigger] v.jobs[i]).message_id == (#[trigger] v.jobs[j]).message_id
        && v.jobs[i].probe_id == v.jobs[j].probe_id)
    &&& forall|j: int| 0 <= j < v.jobs.len() ==> received_id(v.assignments, (#[trigger] v.jobs[j]).message_id)
}

/// Some received message has this ID.
pub open spec fn received_id(rows: Seq<MessageEnvelopeView>, id: Seq<char>) -> bool {
    exists|m: int| 0 <= m < rows.len() && (#[trigger] rows[m]).message_id == id
}

proof fn lemma_first_message_exists(rows: Seq<MessageEnvelopeView>, id: Seq<char>, m: int)
    requires
        0 <= m < rows.len(),
        rows[m].message_id == id,
    ensures
        exists|k: int| #[trigger] first_message(rows, id, k),
    decreases m,
{
    if forall|j: int| 0 <= j < m ==> (#[trigger] rows[j]).message_id != id {
        assert(first_message(rows, id, m));
    } else {
        let j = choose|j: int| 0 <= j < m && (#[trigger] rows[j]).message_id == id;
        lemma_first_message_exists(rows, id, j);
    }
}

/// A recorded message is never recorded again: receiving the same message
/// once more, at the same time, is a duplicate and changes nothing.
pub proof fn lemma_receive_replay_is_duplicate(
    v: QueueView,
    a: WitnessAssignment,
    sealed: DsseEnvelope,
    e: MessageEnvelopeView,
    payload: DsseEnvelope,
    now: u64,
    w: QueueView,
)
    requires
        receive_spec(v, a, sealed, e, payload, now) == Ok::<(QueueView, Receive), QueueError>((w, Receive::Inserted)),
    ensures
        receive_spec(w, a, sealed, e, payload, now) == Ok::<(QueueView, Receive), QueueError>((w, Receive::Duplicate)),
{
    let n = v.assignments.len() as int;
    assert(w.assignments == v.assignments.push(e));
    assert forall|m: int| 0 <= m < n implies (#[trigger] w.assignments[m]).message_id != e.message_id by {
        assert(w.assignments[m] == v.assignments[m]);
        if v.assignments[m].message_id == e.message_id {
            lemma_first_message_exists(v.assignments, e.message_id, m);
        }
    }
    assert(first_message(w.assignments, e.message_id, n));
    let k = choose|k: int| #[trigger] first_message(w.assignments, e.message_id, k);
    if k < n {
        assert(w.assignments[k].message_id != e.message_id);
    } else if k > n {
        assert(w.assignments[n].message_id == e.message_id);
    }
}

/// Receiving keeps each job keyed by its message and probe: a new message
/// brings one job per distinct probe, and no received message ID returns.
pub proof fn lemma_receive_keeps_well_formed(
    v: QueueView,
    a: WitnessAssignment,
    sealed: DsseEnvelope,
    e: MessageEnvelopeView,
    payload: DsseEnvelope,
    now: u64,
    w: QueueView,
    o: Receive,
)
    requires
        well_formed(v),
        receive_spec(v, a, sealed, e, payload, now) == Ok::<(QueueView, Receive), QueueError>((w, o)),
    ensures
        well_formed(w),
{
    if o == Receive::Inserted {
        let n = v.jobs.len() as int;
        let na = v.assignments.len() as int;
        assert(!exists|k: int| #[trigger] first_message(v.assignments, e.message_id, k));
        assert forall|m: int| 0 <= m < na implies (#[trigger] v.assignments[m]).message_id != e.message_id by {
            if v.assignments[m].message_id == e.message_id {
                lemma_first_message_exists(v.assignments, e.message_id, m);
            }
        }
        assert(w.assignments == v.assignments.push(e));
        assert(w.jobs.len() == n + a.probes@.len());
        assert forall|j: int| 0 <= j < n implies (#[trigger] w.jobs[j]).message_id == v.jobs[j].message_id
            && w.jobs[j].probe_id == v.jobs[j].probe_id && w.jobs[j].message_id != e.message_id by {
            assert(received_id(v.assignments, v.jobs[j].message_id));
            let m = choose|m: int| 0 <= m < v.assignments.len() && (#[trigger] v.assignments[m]).message_id == v.jobs[j].message_id;
            assert(v.assignments[m].message_id != e.message_id);
        }
        assert forall|j: int| n <= j < w.jobs.len() implies (#[trigger] w.jobs[j]).message_id == e.message_id
            && w.jobs[j].probe_id == a.probes@[j - n].id@ by {}
        assert forall|i: int, j: int| 0 <= i < j < w.jobs.len() implies !((#[trigger] w.jobs[i]).message_id
            == (#[trigger] w.jobs[j]).message_id && w.jobs[i].probe_id == w.jobs[j].probe_id) by {
            if j < n {
                assert(!(v.jobs[i].message_id == v.jobs[j].message_id && v.jobs[i].probe_id == v.jobs[j].probe_id));
            } else if i >= n {
                assert(a.probes@[i - n].id@ != a.probes@[j - n].id@);
            }
        }
        assert forall|j: int| 0 <= j < w.jobs.len() implies received_id(w.assignments, (#[trigger] w.jobs[j]).message_id) by {
            if j < n {
                assert(received_id(v.assignments, v.jobs[j].message_id));
                let m = choose|m: int| 0 <= m < v.assignments.len() && (#[trigger] v.assignments[m]).message_id == v.jobs[j].message_id;
                assert(w.assignments[m] == v.assignments[m]);
            } else {
                assert(w.assignments[na] == e);
            }
        }
    }
}

/// Work runs once: a claimed job holds its running lease; starting it
/// consumes that lease, so it cannot be started again; once completed it
/// can be neither started nor completed again.
pub proof fn lemma_claimed_work_runs_once(
    w: QueueView,
    k: int,
    lease: Seq<char>,
    generation: u64,
    route: RouteView,
    now: u64,
    evidence_id: Seq<char>,
    out: SignedEnvelopeView,
)
    requires
        well_formed(w),
        0 <= k < w.jobs.len(),
        w.jobs[k].status == JobStatus::Pending,
        w.jobs[k].binding.route == route,
        live(w.fences, w.jobs[k].binding, now),
    ensures
        ({
            let m = w.jobs[k].message_id;
            let p = w.jobs[k].probe_id;
            let c = claimed(w, k, lease, generation);
            let s = started(c, k);
            let d = completed(s, k, evidence_id, out);
            &&& holds(c, m, p, lease, route, now, JobStatus::Running, k)
            &&& holds(s, m, p, lease, route, now, JobStatus::Executing, k)
            &&& !exists|x: int| #[trigger] holds(s, m, p, lease, route, now, JobStatus::Running, x)
            &&& !exists|x: int| #[trigger] holds(d, m, p, lease, route, now, JobStatus::Running, x)
            &&& !exists|x: int| #[trigger] holds(d, m, p, lease, route, now, JobStatus::Executing, x)
        }),
{
    let m = w.jobs[k].message_id;
    let p = w.jobs[k].probe_id;
    let c = claimed(w, k, lease, generation);
    let s = started(c, k);
    let d = completed(s, k, evidence_id, out);
    assert forall|x: int| 0 <= x < w.jobs.len() && x != k implies !((#[trigger] w.jobs[x]).message_id == m && w.jobs[x].probe_id == p) by {
        if x < k {
            assert(!(w.jobs[x].message_id == w.jobs[k].message_id && w.jobs[x].probe_id == w.jobs[k].probe_id));
        } else {
            assert(!(w.jobs[k].message_id == w.jobs[x].message_id && w.jobs[k].probe_id == w.jobs[x].probe_id));
        }
    }
    assert forall|x: int| 0 <= x < k implies !((#[trigger] c.jobs[x]).message_id == m && c.jobs[x].probe_id == p) by {
        assert(c.jobs[x] == w.jobs[x]);
    }
    assert(first_job(c.jobs, m, p, k));
    assert forall|x: int| 0 <= x < k implies !((#[trigger] s.jobs[x]).message_id == m && s.jobs[x].probe_id == p) by {
        assert(s.jobs[x] == w.jobs[x]);
    }
    assert(first_job(s.jobs, m, p, k));
    assert forall|x: int| #[trigger] first_job(s.jobs, m, p, x) implies x == k by {
        if x != k {
            assert(s.jobs[x] == w.jobs[x]);
        }
    }
    assert forall|x: int| #[trigger] first_job(d.jobs, m, p, x) implies x == k by {
        if x != k {
            assert(d.jobs[x] == w.jobs[x]);
        }
    }
}

/// Retiring, claiming, starting and completing keep every record and its
/// key: nothing is erased, and the queue stays well formed.
pub proof fn lemma_transitions_keep_records(
    v: QueueView,
    now: u64,
    k: int,
    lease: Seq<char>,
    generation: u64,
    evidence_id: Seq<char>,
    out: SignedEnvelopeView,
)
    requires
        well_formed(v),
        0 <= k < v.jobs.len(),
    ensures
        retired(v, now).assignments == v.assignments,
        retired(v, now).jobs.len() == v.jobs.len(),
        retired(v, now).outbox.len() == v.outbox.len(),
        forall|j: int| 0 <= j < v.jobs.len() ==> (#[trigger] retired(v, now).jobs[j]).message_id == v.jobs[j].message_id
            && retired(v, now).jobs[j].probe_id == v.jobs[j].probe_id && retired(v, now).jobs[j].binding == v.jobs[j].binding,
        forall|j: int| 0 <= j < v.outbox.len() ==> (#[trigger] retired(v, now).outbox[j]).evidence_id == v.outbox[j].evidence_id
            && retired(v, now).outbox[j].envelope == v.outbox[j].envelope,
        well_formed(retired(v, now)),
        well_formed(claimed(v, k, lease, generation)),
        well_formed(started(v, k)),
        well_formed(completed(v, k, evidence_id, out)),
{
    let r = retired(v, now);
    assert forall|j: int| 0 <= j < v.jobs.len() implies (#[trigger] r.jobs[j]).message_id == v.jobs[j].message_id
        && r.jobs[j].probe_id == v.jobs[j].probe_id by {
        assert(r.jobs[j] == retire_job(v.fences, v.jobs[j], now));
    }
    lemma_same_keys_well_formed(v, r);
    lemma_same_keys_well_formed(v, claimed(v, k, lease, generation));
    lemma_same_keys_well_formed(v, started(v, k));
    lemma_same_keys_well_formed(v, completed(v, k, evidence_id, out));
}

proof fn lemma_same_keys_well_formed(v: QueueView, u: QueueView)
    requires
        well_formed(v),
        u.assignments == v.assignments,
        u.jobs.len() == v.jobs.len(),
        forall|j: int| 0 <= j < v.jobs.len() ==> (#[trigger] u.jobs[j]).message_id == v.jobs[j].message_id
            && u.jobs[j].probe_id == v.jobs[j].probe_id,
    ensures
        well_formed(u),
{
    assert forall|i: int, j: int| 0 <= i < j < u.jobs.len() implies !((#[trigger] u.jobs[i]).message_id == (#[trigger] u.jobs[j]).message_id
        && u.jobs[i].probe_id == u.jobs[j].probe_id) by {
        assert(!(v.jobs[i].message_id == v.jobs[j].message_id && v.jobs[i].probe_id == v.jobs[j].probe_id));
    }
    assert forall|j: int| 0 <= j < u.jobs.len() implies received_id(u.assignments, (#[trigger] u.jobs[j]).message_id) by {
        assert(received_id(v.assignments, v.jobs[j].message_id));
    }
}

} // verus!

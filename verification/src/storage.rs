//! The controller's local message store: a durable inbox of received
//! envelopes and an outbox of sent ones, deduplicated by message ID, fenced
//! per device, bounded, and retired (never erased) when they can no longer
//! be delivered; plus accepted revisions and retained snapshots.
use crate::protocol::{
    payload_digest, payload_digest_spec, DeviceBinding, DeviceBindingView, MessageEnvelope, MessageEnvelopeView,
    PROTOCOL_VERSION,
};
use crate::state::sat_sub;
use crate::text::{byte_len, chars_of, str_eq};
use vstd::prelude::*;

verus! {

pub const OBSERVATION_RETENTION_MS: u64 = 2_592_000_000;

pub const AUDIT_RETENTION_MS: u64 = 31_536_000_000;

pub const MAX_IDENTIFIER_BYTES: usize = 256;

pub const MAX_PAYLOAD_BYTES: usize = 1_048_576;

#[derive(Debug, Clone, PartialEq, Eq)]
pub enum StorageError {
    /// A store constraint refused the write (unknown baseline, reused ID).
    Constraint(&'static str),
    InvalidMessage(&'static str),
    /// The message ID was reused with different immutable contents.
    ConflictingMessageId(String),
    StaleFence { device_id: String, received: u64, current: u64 },
    StaleEpoch { device_id: String, received: u64, current: u64 },
    /// The delivery queue is full.
    QueueFull { limit: usize },
    /// The database must be a local file.
    InvalidDatabasePath(String),
    /// The revision source digest does not match the exact source bytes.
    RevisionDigestMismatch,
}

#[derive(Debug, Clone, Copy, PartialEq, Eq, Structural)]
pub enum ReceiveOutcome {
    Inserted,
    Duplicate,
}

#[derive(Debug, Clone, Copy, PartialEq, Eq, Structural)]
pub enum EnqueueOutcome {
    Enqueued,
    Duplicate,
}

#[derive(Debug, Clone, Copy, PartialEq, Eq, Structural)]
pub enum RetentionClass {
    Observation,
    Audit,
}

#[derive(Debug, Clone, Copy, PartialEq, Eq, Structural)]
pub enum BaselineReferenceKind {
    Deployment,
    Audit,
}

impl BaselineReferenceKind {
    pub open spec fn name(self) -> Seq<char> {
        match self {
            BaselineReferenceKind::Deployment => "deployment"@,
            BaselineReferenceKind::Audit => "audit"@,
        }
    }

    pub fn as_str(self) -> (r: &'static str)
        ensures
            r@ == self.name(),
    {
        match self {
            BaselineReferenceKind::Deployment => "deployment",
            BaselineReferenceKind::Audit => "audit",
        }
    }
}

impl RetentionClass {
    pub open spec fn retention_spec(self) -> u64 {
        match self {
            RetentionClass::Observation => OBSERVATION_RETENTION_MS,
            RetentionClass::Audit => AUDIT_RETENTION_MS,
        }
    }

    pub open spec fn name(self) -> Seq<char> {
        match self {
            RetentionClass::Observation => "observation"@,
            RetentionClass::Audit => "audit"@,
        }
    }

    pub fn retention_ms(self) -> (r: u64)
        ensures
            r == self.retention_spec(),
    {
        match self {
            RetentionClass::Observation => OBSERVATION_RETENTION_MS,
            RetentionClass::Audit => AUDIT_RETENTION_MS,
        }
    }

    pub fn as_str(self) -> (r: &'static str)
        ensures
            r@ == self.name(),
    {
        match self {
            RetentionClass::Observation => "observation",
            RetentionClass::Audit => "audit",
        }
    }
}

/// A stored identifier: non-empty, at most 256 bytes, and free of NUL bytes.
pub open spec fn identifier_ok(s: Seq<char>) -> bool {
    let b = vstd::utf8::encode_utf8(s);
    &&& b.len() > 0
    &&& b.len() <= MAX_IDENTIFIER_BYTES
    &&& !b.contains(0u8)
}

pub fn validate_identifier(value: &str, name: &'static str) -> (r: Result<(), StorageError>)
    ensures
        r is Ok <==> identifier_ok(value@),
        r matches Err(e) ==> e == StorageError::InvalidMessage(name),
{
    let b = value.as_bytes();
    assert(b@ == vstd::utf8::encode_utf8(value@));
    if b.len() == 0 || b.len() > MAX_IDENTIFIER_BYTES {
        return Err(StorageError::InvalidMessage(name));
    }
    let mut i: usize = 0;
    while i < b.len()
        invariant
            b@ == vstd::utf8::encode_utf8(value@),
            i <= b@.len(),
            forall|j: int| 0 <= j < i ==> b@[j] != 0u8,
        decreases b@.len() - i,
    {
        if b[i] == 0 {
            assert(b@.contains(0u8)) by {
                assert(b@[i as int] == 0u8);
            }
            return Err(StorageError::InvalidMessage(name));
        }
        i = i + 1;
    }
    Ok(())
}

/// The first check that an envelope fails, in the order they are made.
pub open spec fn envelope_fault(e: MessageEnvelopeView, now_ms: u64) -> Option<&'static str> {
    if e.version != PROTOCOL_VERSION {
        Some("unsupported protocol version")
    } else if !identifier_ok(e.message_id) {
        Some("message ID")
    } else if !identifier_ok(e.sender) {
        Some("sender")
    } else if !identifier_ok(e.recipient) {
        Some("recipient")
    } else if !identifier_ok(e.device.device_id) {
        Some("device ID")
    } else if !identifier_ok(e.device.profile_digest) {
        Some("profile digest")
    } else if e.payload.len() > MAX_PAYLOAD_BYTES {
        Some("payload exceeds storage limit")
    } else if e.created_at_ms > now_ms {
        Some("envelope creation time is in the future")
    } else if now_ms >= e.expires_at_ms {
        Some("envelope has expired")
    } else if payload_digest_spec(e.payload) != e.payload_digest {
        Some("payload digest does not match exact payload bytes")
    } else {
        None
    }
}

/// Checks an envelope's version, identifiers, size, validity window and
/// payload digest against the exact payload bytes.
pub fn validate(envelope: &MessageEnvelope, now_ms: u64) -> (r: Result<(), StorageError>)
    ensures
        match envelope_fault(envelope@, now_ms) {
            None => r is Ok,
            Some(m) => r == Err::<(), StorageError>(StorageError::InvalidMessage(m)),
        },
{
    if envelope.version != PROTOCOL_VERSION {
        return Err(StorageError::InvalidMessage("unsupported protocol version"));
    }
    validate_identifier(envelope.message_id.as_str(), "message ID")?;
    validate_identifier(envelope.sender.as_str(), "sender")?;
    validate_identifier(envelope.recipient.as_str(), "recipient")?;
    validate_identifier(envelope.device.device_id.as_str(), "device ID")?;
    validate_identifier(envelope.device.profile_digest.as_str(), "profile digest")?;
    if envelope.payload.len() > MAX_PAYLOAD_BYTES {
        return Err(StorageError::InvalidMessage("payload exceeds storage limit"));
    }
    if envelope.created_at_ms > now_ms {
        return Err(StorageError::InvalidMessage("envelope creation time is in the future"));
    }
    if now_ms >= envelope.expires_at_ms {
        return Err(StorageError::InvalidMessage("envelope has expired"));
    }
    let digest = payload_digest(envelope.payload.as_slice());
    if !str_eq(digest.as_str(), envelope.payload_digest.as_str()) {
        return Err(StorageError::InvalidMessage("payload digest does not match exact payload bytes"));
    }
    Ok(())
}

pub open spec fn has_prefix(s: Seq<char>, p: Seq<char>) -> bool {
    p.len() <= s.len() && s.subrange(0, p.len() as int) == p
}

pub open spec fn has_infix(s: Seq<char>, p: Seq<char>) -> bool {
    exists|k: int| 0 <= k && k + p.len() <= s.len() && #[trigger] s.subrange(k, k + p.len()) == p
}

fn chars_at(s: &Vec<char>, k: usize, p: &Vec<char>) -> (r: bool)
    requires
        k + p@.len() <= s@.len(),
    ensures
        r == (s@.subrange(k as int, k + p@.len()) == p@),
{
    let n = s.len();
    let mut i: usize = 0;
    while i < p.len()
        invariant
            k + p@.len() <= s@.len(),
            n == s@.len(),
            i <= p@.len(),
            forall|j: int| 0 <= j < i ==> s@[k + j] == p@[j],
        decreases p@.len() - i,
    {
        if s[k + i] != p[i] {
            assert(s@.subrange(k as int, k + p@.len())[i as int] != p@[i as int]);
            return false;
        }
        i = i + 1;
    }
    assert(s@.subrange(k as int, k + p@.len()) =~= p@);
    true
}

fn has_infix_exec(s: &Vec<char>, p: &Vec<char>) -> (r: bool)
    ensures
        r == has_infix(s@, p@),
{
    if p.len() > s.len() {
        return false;
    }
    let last = s.len() - p.len();
    let mut k: usize = 0;
    loop
        invariant
            p@.len() <= s@.len(),
            last == s@.len() - p@.len(),
            k <= last,
            forall|j: int| 0 <= j < k ==> #[trigger] s@.subrange(j, j + p@.len()) != p@,
        decreases last - k,
    {
        if chars_at(s, k, p) {
            return true;
        }
        if k == last {
            proof {
                assert forall|j: int| 0 <= j && j + p@.len() <= s@.len() implies #[trigger] s@.subrange(j, j + p@.len()) != p@ by {
                    if j == k {
                    }
                }
            }
            return false;
        }
        k = k + 1;
    }
}

/// A database path names a local file: not `:memory:`, not a `file:` URI
/// and not an in-memory mode.
pub open spec fn database_path_ok(rendered: Seq<char>) -> bool {
    rendered != ":memory:"@ && !has_prefix(rendered, "file:"@) && !has_infix(rendered, "?mode=memory"@)
}

/// Refuses in-memory and URI databases; `rendered` is the path as text.
pub fn validate_database_path(rendered: &str) -> (r: Result<(), StorageError>)
    ensures
        r is Ok <==> database_path_ok(rendered@),
        r matches Err(e) ==> e matches StorageError::InvalidDatabasePath(p) && p@ == rendered@,
{
    let s = chars_of(rendered);
    let memory = chars_of(":memory:");
    let file = chars_of("file:");
    let mode = chars_of("?mode=memory");
    let mut bad = s.len() == memory.len() && chars_at(&s, 0, &memory);
    proof {
        if s@.len() == memory@.len() {
            assert(s@.subrange(0, s@.len() as int) =~= s@);
        }
    }
    if !bad && file.len() <= s.len() {
        bad = chars_at(&s, 0, &file);
    }
    if !bad {
        bad = has_infix_exec(&s, &mode);
    }
    if bad {
        return Err(StorageError::InvalidDatabasePath(rendered.to_string()));
    }
    Ok(())
}

pub struct InboxRecord {
    pub envelope: MessageEnvelope,
    pub received_at_ms: u64,
    pub processed_at_ms: Option<u64>,
    pub discarded_at_ms: Option<u64>,
}

pub struct InboxView {
    pub envelope: MessageEnvelopeView,
    pub received_at_ms: u64,
    pub processed_at_ms: Option<u64>,
    pub discarded_at_ms: Option<u64>,
}

impl View for InboxRecord {
    type V = InboxView;
    open spec fn view(&self) -> InboxView {
        InboxView {
            envelope: self.envelope@,
            received_at_ms: self.received_at_ms,
            processed_at_ms: self.processed_at_ms,
            discarded_at_ms: self.discarded_at_ms,
        }
    }
}

pub struct OutboxRecord {
    pub envelope: MessageEnvelope,
    pub attempts: u32,
    pub not_before_ms: u64,
    pub acknowledged_at_ms: Option<u64>,
    pub discarded_at_ms: Option<u64>,
}

pub struct OutboxView {
    pub envelope: MessageEnvelopeView,
    pub attempts: u32,
    pub not_before_ms: u64,
    pub acknowledged_at_ms: Option<u64>,
    pub discarded_at_ms: Option<u64>,
}

impl View for OutboxRecord {
    type V = OutboxView;
    open spec fn view(&self) -> OutboxView {
        OutboxView {
            envelope: self.envelope@,
            attempts: self.attempts,
            not_before_ms: self.not_before_ms,
            acknowledged_at_ms: self.acknowledged_at_ms,
            discarded_at_ms: self.discarded_at_ms,
        }
    }
}

/// The current fencing generation and plan epoch of a device.
pub struct DeviceFence {
    pub device_id: String,
    pub fencing_generation: u64,
    pub plan_epoch: u64,
}

pub struct FenceView {
    pub device_id: Seq<char>,
    pub fencing_generation: u64,
    pub plan_epoch: u64,
}

impl View for DeviceFence {
    type V = FenceView;
    open spec fn view(&self) -> FenceView {
        FenceView { device_id: self.device_id@, fencing_generation: self.fencing_generation, plan_epoch: self.plan_epoch }
    }
}

pub open spec fn view_inbox(v: Seq<InboxRecord>) -> Seq<InboxView> {
    v.map_values(|r: InboxRecord| r@)
}

pub open spec fn view_outbox(v: Seq<OutboxRecord>) -> Seq<OutboxView> {
    v.map_values(|r: OutboxRecord| r@)
}

pub open spec fn view_fences(v: Seq<DeviceFence>) -> Seq<FenceView> {
    v.map_values(|r: DeviceFence| r@)
}

/// Index `k` holds the fence of `device`.
pub open spec fn fence_at(fs: Seq<FenceView>, device: Seq<char>, k: int) -> bool {
    0 <= k < fs.len() && fs[k].device_id == device
}

/// The recorded (generation, epoch) of a device, if any.
pub open spec fn fence_of(fs: Seq<FenceView>, device: Seq<char>) -> Option<(u64, u64)> {
    if exists|k: int| fence_at(fs, device, k) {
        let k = choose|k: int| fence_at(fs, device, k);
        Some((fs[k].fencing_generation, fs[k].plan_epoch))
    } else {
        None
    }
}

pub open spec fn unique_fences(fs: Seq<FenceView>) -> bool {
    forall|i: int, j: int| 0 <= i < j < fs.len() ==> (#[trigger] fs[i]).device_id != (#[trigger] fs[j]).device_id
}

pub proof fn lemma_fence_at(fs: Seq<FenceView>, device: Seq<char>, k: int)
    requires
        unique_fences(fs),
        fence_at(fs, device, k),
    ensures
        fence_of(fs, device) == Some((fs[k].fencing_generation, fs[k].plan_epoch)),
{
    let c = choose|c: int| fence_at(fs, device, c);
    if c != k {
        if c < k {
            assert(fs[c].device_id != fs[k].device_id);
        } else {
            assert(fs[k].device_id != fs[c].device_id);
        }
    }
}

/// A message can still be delivered: unexpired, and of its device's current
/// generation and epoch.
pub open spec fn deliverable(fs: Seq<FenceView>, e: MessageEnvelopeView, now_ms: u64) -> bool {
    now_ms < e.expires_at_ms && fence_of(fs, e.device.device_id) == Some((e.device.fencing_generation, e.plan_epoch))
}

/// The fences after recording the envelope's generation and epoch for its device.
pub open spec fn set_fence(fs: Seq<FenceView>, e: MessageEnvelopeView) -> Seq<FenceView> {
    let f = FenceView { device_id: e.device.device_id, fencing_generation: e.device.fencing_generation, plan_epoch: e.plan_epoch };
    if exists|k: int| fence_at(fs, e.device.device_id, k) {
        fs.update(choose|k: int| fence_at(fs, e.device.device_id, k), f)
    } else {
        fs.push(f)
    }
}

pub open spec fn inbox_pending(r: InboxView) -> bool {
    r.processed_at_ms is None && r.discarded_at_ms is None
}

pub open spec fn outbox_pending(r: OutboxView) -> bool {
    r.acknowledged_at_ms is None && r.discarded_at_ms is None
}

/// Pending inbox records that can no longer be delivered are retired at `now_ms`.
pub open spec fn retire_inbox(rows: Seq<InboxView>, fs: Seq<FenceView>, now_ms: u64) -> Seq<InboxView> {
    rows.map_values(
        |r: InboxView|
            if inbox_pending(r) && !deliverable(fs, r.envelope, now_ms) {
                InboxView { discarded_at_ms: Some(now_ms), ..r }
            } else {
                r
            },
    )
}

pub open spec fn retire_outbox(rows: Seq<OutboxView>, fs: Seq<FenceView>, now_ms: u64) -> Seq<OutboxView> {
    rows.map_values(
        |r: OutboxView|
            if outbox_pending(r) && !deliverable(fs, r.envelope, now_ms) {
                OutboxView { discarded_at_ms: Some(now_ms), ..r }
            } else {
                r
            },
    )
}

pub open spec fn count_inbox_pending(rows: Seq<InboxView>) -> nat
    decreases rows.len(),
{
    if rows.len() == 0 {
        0
    } else {
        count_inbox_pending(rows.drop_last()) + if inbox_pending(rows.last()) { 1nat } else { 0nat }
    }
}

pub open spec fn count_outbox_pending(rows: Seq<OutboxView>) -> nat
    decreases rows.len(),
{
    if rows.len() == 0 {
        0
    } else {
        count_outbox_pending(rows.drop_last()) + if outbox_pending(rows.last()) { 1nat } else { 0nat }
    }
}

/// Why recording the envelope's fence would roll a device back, if it would.
pub enum FenceFault {
    StaleFence(u64),
    StaleEpoch(u64),
}

pub open spec fn fence_fault(fs: Seq<FenceView>, e: MessageEnvelopeView) -> Option<FenceFault> {
    match fence_of(fs, e.device.device_id) {
        Some((g, ep)) => if e.device.fencing_generation < g {
            Some(FenceFault::StaleFence(g))
        } else if e.device.fencing_generation == g && e.plan_epoch < ep {
            Some(FenceFault::StaleEpoch(ep))
        } else {
            None
        },
        None => None,
    }
}

/// The first record with this message ID is at `k`.
pub open spec fn first_inbox(rows: Seq<InboxView>, id: Seq<char>, k: int) -> bool {
    0 <= k < rows.len() && rows[k].envelope.message_id == id && forall|j: int| 0 <= j < k ==> (#[trigger] rows[j]).envelope.message_id != id
}

pub open spec fn first_outbox(rows: Seq<OutboxView>, id: Seq<char>, k: int) -> bool {
    0 <= k < rows.len() && rows[k].envelope.message_id == id && forall|j: int| 0 <= j < k ==> (#[trigger] rows[j]).envelope.message_id != id
}

pub proof fn lemma_set_fence(fs: Seq<FenceView>, e: MessageEnvelopeView, d: Seq<char>)
    requires
        unique_fences(fs),
    ensures
        unique_fences(set_fence(fs, e)),
        fence_of(set_fence(fs, e), d) == if d == e.device.device_id {
            Some((e.device.fencing_generation, e.plan_epoch))
        } else {
            fence_of(fs, d)
        },
{
    let dev = e.device.device_id;
    let f = FenceView { device_id: dev, fencing_generation: e.device.fencing_generation, plan_epoch: e.plan_epoch };
    let n = set_fence(fs, e);
    if exists|k: int| fence_at(fs, dev, k) {
        let c = choose|k: int| fence_at(fs, dev, k);
        assert(n == fs.update(c, f));
        assert forall|i: int, j: int| 0 <= i < j < n.len() implies (#[trigger] n[i]).device_id != (#[trigger] n[j]).device_id by {
            assert(fs[i].device_id != fs[j].device_id);
        }
        if d == dev {
            assert(fence_at(n, d, c));
            lemma_fence_at(n, d, c);
        } else {
            if exists|k: int| fence_at(fs, d, k) {
                let k = choose|k: int| fence_at(fs, d, k);
                lemma_fence_at(fs, d, k);
                assert(fence_at(n, d, k));
                lemma_fence_at(n, d, k);
            } else {
                assert forall|k: int| !fence_at(n, d, k) by {
                    if fence_at(n, d, k) {
                        assert(fence_at(fs, d, k));
                    }
                }
            }
        }
    } else {
        assert(n == fs.push(f));
        assert forall|i: int, j: int| 0 <= i < j < n.len() implies (#[trigger] n[i]).device_id != (#[trigger] n[j]).device_id by {
            if j == fs.len() {
                assert(!fence_at(fs, dev, i));
            } else {
                assert(fs[i].device_id != fs[j].device_id);
            }
        }
        if d == dev {
            assert(fence_at(n, d, fs.len() as int));
            lemma_fence_at(n, d, fs.len() as int);
        } else {
            if exists|k: int| fence_at(fs, d, k) {
                let k = choose|k: int| fence_at(fs, d, k);
                lemma_fence_at(fs, d, k);
                assert(fence_at(n, d, k));
                lemma_fence_at(n, d, k);
            } else {
                assert forall|k: int| !fence_at(n, d, k) by {
                    if fence_at(n, d, k) {
                        assert(fence_at(fs, d, k));
                    }
                }
            }
        }
    }
}

fn find_fence(fences: &Vec<DeviceFence>, device_id: &String) -> (r: Option<usize>)
    ensures
        r matches Some(k) ==> fence_at(view_fences(fences@), device_id@, k as int),
        r is None ==> forall|k: int| !fence_at(view_fences(fences@), device_id@, k),
{
    let mut k: usize = 0;
    while k < fences.len()
        invariant
            k <= fences@.len(),
            forall|j: int| 0 <= j < k ==> (#[trigger] fences@[j]).device_id@ != device_id@,
        decreases fences@.len() - k,
    {
        if fences[k].device_id == *device_id {
            return Some(k);
        }
        k = k + 1;
    }
    proof {
        assert forall|j: int| !fence_at(view_fences(fences@), device_id@, j) by {
            if fence_at(view_fences(fences@), device_id@, j) {
                assert(view_fences(fences@)[j] == fences@[j]@);
            }
        }
    }
    None
}

fn fence_value(fences: &Vec<DeviceFence>, device_id: &String) -> (r: Option<(u64, u64)>)
    requires
        unique_fences(view_fences(fences@)),
    ensures
        r == fence_of(view_fences(fences@), device_id@),
{
    match find_fence(fences, device_id) {
        Some(k) => {
            proof {
                lemma_fence_at(view_fences(fences@), device_id@, k as int);
            }
            Some((fences[k].fencing_generation, fences[k].plan_epoch))
        },
        None => None,
    }
}

fn is_deliverable(fences: &Vec<DeviceFence>, e: &MessageEnvelope, now_ms: u64) -> (r: bool)
    requires
        unique_fences(view_fences(fences@)),
    ensures
        r == deliverable(view_fences(fences@), e@, now_ms),
{
    if now_ms >= e.expires_at_ms {
        return false;
    }
    match fence_value(fences, &e.device.device_id) {
        Some((g, ep)) => g == e.device.fencing_generation && ep == e.plan_epoch,
        None => false,
    }
}

fn set_fence_exec(fences: &mut Vec<DeviceFence>, e: &MessageEnvelope)
    requires
        unique_fences(view_fences(old(fences)@)),
    ensures
        view_fences(final(fences)@) == set_fence(view_fences(old(fences)@), e@),
        unique_fences(view_fences(final(fences)@)),
{
    proof {
        lemma_set_fence(view_fences(fences@), e@, e@.device.device_id);
    }
    let f = DeviceFence {
        device_id: e.device.device_id.clone(),
        fencing_generation: e.device.fencing_generation,
        plan_epoch: e.plan_epoch,
    };
    let ghost fs = view_fences(fences@);
    match find_fence(fences, &e.device.device_id) {
        Some(k) => {
            proof {
                let c = choose|c: int| fence_at(fs, e@.device.device_id, c);
                lemma_fence_at(fs, e@.device.device_id, k as int);
                if c != k as int {
                    if c < k {
                        assert(fs[c].device_id != fs[k as int].device_id);
                    } else {
                        assert(fs[k as int].device_id != fs[c].device_id);
                    }
                }
            }
            fences.set(k, f);
            assert(view_fences(fences@) =~= set_fence(fs, e@));
        },
        None => {
            fences.push(f);
            assert(view_fences(fences@) =~= set_fence(fs, e@));
        },
    }
}

/// Where a message stands after the envelope `e` records its fence: still
/// deliverable under the fences that result.
pub open spec fn deliverable_after(fs: Seq<FenceView>, e: MessageEnvelopeView, m: MessageEnvelopeView, now_ms: u64) -> bool {
    deliverable(set_fence(fs, e), m, now_ms)
}

fn is_deliverable_after(fences: &Vec<DeviceFence>, e: &MessageEnvelope, m: &MessageEnvelope, now_ms: u64) -> (r: bool)
    requires
        unique_fences(view_fences(fences@)),
    ensures
        r == deliverable_after(view_fences(fences@), e@, m@, now_ms),
{
    proof {
        lemma_set_fence(view_fences(fences@), e@, m@.device.device_id);
    }
    if now_ms >= m.expires_at_ms {
        return false;
    }
    if m.device.device_id == e.device.device_id {
        m.device.fencing_generation == e.device.fencing_generation && m.plan_epoch == e.plan_epoch
    } else {
        match fence_value(fences, &m.device.device_id) {
            Some((g, ep)) => g == m.device.fencing_generation && ep == m.plan_epoch,
            None => false,
        }
    }
}

/// The number of pending inbox records that stay pending once `e` records its fence.
fn count_surviving_inbox(rows: &Vec<InboxRecord>, fences: &Vec<DeviceFence>, e: &MessageEnvelope, now_ms: u64) -> (r: usize)
    requires
        unique_fences(view_fences(fences@)),
    ensures
        r == count_inbox_pending(retire_inbox(view_inbox(rows@), set_fence(view_fences(fences@), e@), now_ms)),
{
    let ghost fs2 = set_fence(view_fences(fences@), e@);
    let ghost full = retire_inbox(view_inbox(rows@), fs2, now_ms);
    let mut n: usize = 0;
    let mut i: usize = 0;
    while i < rows.len()
        invariant
            unique_fences(view_fences(fences@)),
            fs2 == set_fence(view_fences(fences@), e@),
            full == retire_inbox(view_inbox(rows@), fs2, now_ms),
            full.len() == rows@.len(),
            i <= rows@.len(),
            n <= i,
            n == count_inbox_pending(full.subrange(0, i as int)),
        decreases rows@.len() - i,
    {
        let r = &rows[i];
        let pending = r.processed_at_ms.is_none() && r.discarded_at_ms.is_none();
        let keep = pending && is_deliverable_after(fences, e, &r.envelope, now_ms);
        proof {
            let p = full.subrange(0, i + 1);
            assert(p.drop_last() =~= full.subrange(0, i as int));
            assert(p.last() == full[i as int]);
            assert(view_inbox(rows@)[i as int] == r@);
            assert(inbox_pending(full[i as int]) == keep);
        }
        if keep {
            n = n + 1;
        }
        i = i + 1;
    }
    assert(full.subrange(0, rows@.len() as int) =~= full);
    n
}

fn retire_inbox_exec(rows: &mut Vec<InboxRecord>, fences: &Vec<DeviceFence>, now_ms: u64)
    requires
        unique_fences(view_fences(fences@)),
    ensures
        view_inbox(final(rows)@) == retire_inbox(view_inbox(old(rows)@), view_fences(fences@), now_ms),
        final(rows)@.len() == old(rows)@.len(),
        forall|k: int| 0 <= k < old(rows)@.len() ==> (#[trigger] final(rows)@[k]).envelope@ == old(rows)@[k].envelope@,
{
    let ghost target = retire_inbox(view_inbox(rows@), view_fences(fences@), now_ms);
    let ghost start = rows@;
    let mut i: usize = 0;
    while i < rows.len()
        invariant
            unique_fences(view_fences(fences@)),
            target == retire_inbox(view_inbox(start), view_fences(fences@), now_ms),
            rows@.len() == start.len(),
            i <= rows@.len(),
            forall|k: int| 0 <= k < i ==> (#[trigger] rows@[k])@ == target[k],
            forall|k: int| i <= k < rows@.len() ==> (#[trigger] rows@[k]) == start[k],
            forall|k: int| 0 <= k < rows@.len() ==> (#[trigger] rows@[k]).envelope@ == start[k].envelope@,
        decreases rows@.len() - i,
    {
        assert(view_inbox(start)[i as int] == start[i as int]@);
        let pending = rows[i].processed_at_ms.is_none() && rows[i].discarded_at_ms.is_none();
        if pending && !is_deliverable(fences, &rows[i].envelope, now_ms) {
            let mut r = rows.remove(i);
            r.discarded_at_ms = Some(now_ms);
            rows.insert(i, r);
        }
        i = i + 1;
    }
    assert(view_inbox(rows@) =~= target);
}

fn retire_outbox_exec(rows: &mut Vec<OutboxRecord>, fences: &Vec<DeviceFence>, now_ms: u64)
    requires
        unique_fences(view_fences(fences@)),
    ensures
        view_outbox(final(rows)@) == retire_outbox(view_outbox(old(rows)@), view_fences(fences@), now_ms),
        final(rows)@.len() == old(rows)@.len(),
        forall|k: int| 0 <= k < old(rows)@.len() ==> (#[trigger] final(rows)@[k]).envelope@ == old(rows)@[k].envelope@,
{
    let ghost target = retire_outbox(view_outbox(rows@), view_fences(fences@), now_ms);
    let ghost start = rows@;
    let mut i: usize = 0;
    while i < rows.len()
        invariant
            unique_fences(view_fences(fences@)),
            target == retire_outbox(view_outbox(start), view_fences(fences@), now_ms),
            rows@.len() == start.len(),
            i <= rows@.len(),
            forall|k: int| 0 <= k < i ==> (#[trigger] rows@[k])@ == target[k],
            forall|k: int| i <= k < rows@.len() ==> (#[trigger] rows@[k]) == start[k],
            forall|k: int| 0 <= k < rows@.len() ==> (#[trigger] rows@[k]).envelope@ == start[k].envelope@,
        decreases rows@.len() - i,
    {
        assert(view_outbox(start)[i as int] == start[i as int]@);
        let pending = rows[i].acknowledged_at_ms.is_none() && rows[i].discarded_at_ms.is_none();
        if pending && !is_deliverable(fences, &rows[i].envelope, now_ms) {
            let mut r = rows.remove(i);
            r.discarded_at_ms = Some(now_ms);
            rows.insert(i, r);
        }
        i = i + 1;
    }
    assert(view_outbox(rows@) =~= target);
}

pub struct RevisionRecord {
    pub id: String,
    pub source_digest: String,
    pub source: Vec<u8>,
    pub accepted_at_ms: u64,
}

pub struct RevisionView {
    pub id: Seq<char>,
    pub source_digest: Seq<char>,
    pub source: Seq<u8>,
    pub accepted_at_ms: u64,
}

impl View for RevisionRecord {
    type V = RevisionView;
    open spec fn view(&self) -> RevisionView {
        RevisionView { id: self.id@, source_digest: self.source_digest@, source: self.source@, accepted_at_ms: self.accepted_at_ms }
    }
}

pub struct SnapshotRecord {
    pub id: String,
    pub retention: RetentionClass,
    pub body: Vec<u8>,
    pub recorded_at_ms: u64,
    pub baseline_id: Option<String>,
}

pub struct SnapshotView {
    pub id: Seq<char>,
    pub retention: RetentionClass,
    pub body: Seq<u8>,
    pub recorded_at_ms: u64,
    pub baseline_id: Option<Seq<char>>,
}

impl View for SnapshotRecord {
    type V = SnapshotView;
    open spec fn view(&self) -> SnapshotView {
        SnapshotView {
            id: self.id@,
            retention: self.retention,
            body: self.body@,
            recorded_at_ms: self.recorded_at_ms,
            baseline_id: match self.baseline_id {
                Some(b) => Some(b@),
                None => None,
            },
        }
    }
}

pub struct ReferenceRecord {
    pub reference_id: String,
    pub kind: BaselineReferenceKind,
    pub baseline_id: String,
}

pub struct ReferenceView {
    pub reference_id: Seq<char>,
    pub kind: BaselineReferenceKind,
    pub baseline_id: Seq<char>,
}

impl View for ReferenceRecord {
    type V = ReferenceView;
    open spec fn view(&self) -> ReferenceView {
        ReferenceView { reference_id: self.reference_id@, kind: self.kind, baseline_id: self.baseline_id@ }
    }
}

pub struct StoreView {
    pub inbox: Seq<InboxView>,
    pub outbox: Seq<OutboxView>,
    pub fences: Seq<FenceView>,
    pub revisions: Seq<RevisionView>,
    pub snapshots: Seq<SnapshotView>,
    pub references: Seq<ReferenceView>,
    pub max_queue: usize,
}

/// The store's records, kept in memory; a host persists them.
pub struct Store {
    inbox: Vec<InboxRecord>,
    outbox: Vec<OutboxRecord>,
    fences: Vec<DeviceFence>,
    revisions: Vec<RevisionRecord>,
    snapshots: Vec<SnapshotRecord>,
    references: Vec<ReferenceRecord>,
    max_queue: usize,
}

impl View for Store {
    type V = StoreView;
    closed spec fn view(&self) -> StoreView {
        StoreView {
            inbox: view_inbox(self.inbox@),
            outbox: view_outbox(self.outbox@),
            fences: view_fences(self.fences@),
            revisions: self.revisions@.map_values(|r: RevisionRecord| r@),
            snapshots: self.snapshots@.map_values(|r: SnapshotRecord| r@),
            references: self.references@.map_values(|r: ReferenceRecord| r@),
            max_queue: self.max_queue,
        }
    }
}

pub open spec fn unique_inbox(rows: Seq<InboxView>) -> bool {
    forall|i: int, j: int| 0 <= i < j < rows.len() ==> (#[trigger] rows[i]).envelope.message_id != (#[trigger] rows[j]).envelope.message_id
}

pub open spec fn unique_outbox(rows: Seq<OutboxView>) -> bool {
    forall|i: int, j: int| 0 <= i < j < rows.len() ==> (#[trigger] rows[i]).envelope.message_id != (#[trigger] rows[j]).envelope.message_id
}

/// No two records share a key.
pub open spec fn store_keys_unique(v: StoreView) -> bool {
    &&& unique_inbox(v.inbox)
    &&& unique_outbox(v.outbox)
    &&& unique_fences(v.fences)
    &&& forall|i: int, j: int| 0 <= i < j < v.revisions.len() ==> (#[trigger] v.revisions[i]).id != (#[trigger] v.revisions[j]).id
    &&& forall|i: int, j: int| 0 <= i < j < v.snapshots.len() ==> (#[trigger] v.snapshots[i]).id != (#[trigger] v.snapshots[j]).id
    &&& forall|i: int, j: int| 0 <= i < j < v.references.len() ==> (#[trigger] v.references[i]).reference_id
        != (#[trigger] v.references[j]).reference_id
}

/// What `receive` does with an envelope, in the order the checks are made.
pub enum ReceiveDecision {
    Duplicate,
    Conflict,
    Invalid(&'static str),
    Stale(FenceFault),
    Full,
    Insert,
}

pub open spec fn receive_decision(v: StoreView, e: MessageEnvelopeView, now_ms: u64) -> ReceiveDecision {
    if exists|k: int| first_inbox(v.inbox, e.message_id, k) {
        let k = choose|k: int| first_inbox(v.inbox, e.message_id, k);
        if v.inbox[k].envelope == e { ReceiveDecision::Duplicate } else { ReceiveDecision::Conflict }
    } else if envelope_fault(e, now_ms) is Some {
        ReceiveDecision::Invalid(envelope_fault(e, now_ms)->0)
    } else if fence_fault(v.fences, e) is Some {
        ReceiveDecision::Stale(fence_fault(v.fences, e)->0)
    } else if count_inbox_pending(retire_inbox(v.inbox, set_fence(v.fences, e), now_ms)) >= v.max_queue {
        ReceiveDecision::Full
    } else {
        ReceiveDecision::Insert
    }
}

/// The store after a received envelope is recorded: its fence set, records
/// that can no longer be delivered retired, and the envelope appended.
pub open spec fn received(v: StoreView, e: MessageEnvelopeView, now_ms: u64) -> StoreView {
    let fs = set_fence(v.fences, e);
    StoreView {
        inbox: retire_inbox(v.inbox, fs, now_ms).push(
            InboxView { envelope: e, received_at_ms: now_ms, processed_at_ms: None, discarded_at_ms: None },
        ),
        outbox: retire_outbox(v.outbox, fs, now_ms),
        fences: fs,
        ..v
    }
}

/// The error that a fence fault is reported as.
pub open spec fn fence_error_matches(r: StorageError, f: FenceFault, e: MessageEnvelopeView) -> bool {
    match f {
        FenceFault::StaleFence(c) => r matches StorageError::StaleFence { device_id, received, current }
            && device_id@ == e.device.device_id && received == e.device.fencing_generation && current == c,
        FenceFault::StaleEpoch(c) => r matches StorageError::StaleEpoch { device_id, received, current }
            && device_id@ == e.device.device_id && received == e.plan_epoch && current == c,
    }
}

fn find_inbox(rows: &Vec<InboxRecord>, id: &String) -> (r: Option<usize>)
    ensures
        r matches Some(k) ==> first_inbox(view_inbox(rows@), id@, k as int),
        r is None ==> forall|k: int| !first_inbox(view_inbox(rows@), id@, k),
{
    let ghost v = view_inbox(rows@);
    let mut k: usize = 0;
    while k < rows.len()
        invariant
            v == view_inbox(rows@),
            k <= rows@.len(),
            forall|j: int| 0 <= j < k ==> (#[trigger] v[j]).envelope.message_id != id@,
        decreases rows@.len() - k,
    {
        assert(v[k as int] == rows@[k as int]@);
        if rows[k].envelope.message_id == *id {
            return Some(k);
        }
        k = k + 1;
    }
    None
}

fn find_outbox(rows: &Vec<OutboxRecord>, id: &String) -> (r: Option<usize>)
    ensures
        r matches Some(k) ==> first_outbox(view_outbox(rows@), id@, k as int),
        r is None ==> forall|k: int| !first_outbox(view_outbox(rows@), id@, k),
{
    let ghost v = view_outbox(rows@);
    let mut k: usize = 0;
    while k < rows.len()
        invariant
            v == view_outbox(rows@),
            k <= rows@.len(),
            forall|j: int| 0 <= j < k ==> (#[trigger] v[j]).envelope.message_id != id@,
        decreases rows@.len() - k,
    {
        assert(v[k as int] == rows@[k as int]@);
        if rows[k].envelope.message_id == *id {
            return Some(k);
        }
        k = k + 1;
    }
    None
}

fn check_fence(fences: &Vec<DeviceFence>, e: &MessageEnvelope) -> (r: Result<(), StorageError>)
    requires
        unique_fences(view_fences(fences@)),
    ensures
        match fence_fault(view_fences(fences@), e@) {
            None => r is Ok,
            Some(f) => r matches Err(x) && fence_error_matches(x, f, e@),
        },
{
    match fence_value(fences, &e.device.device_id) {
        Some((g, ep)) => {
            if e.device.fencing_generation < g {
                return Err(StorageError::StaleFence {
                    device_id: e.device.device_id.clone(),
                    received: e.device.fencing_generation,
                    current: g,
                });
            }
            if e.device.fencing_generation == g && e.plan_epoch < ep {
                return Err(StorageError::StaleEpoch {
                    device_id: e.device.device_id.clone(),
                    received: e.plan_epoch,
                    current: ep,
                });
            }
            Ok(())
        },
        None => Ok(()),
    }
}

impl Store {
    #[verifier::type_invariant]
    closed spec fn keys_unique(&self) -> bool {
        store_keys_unique(self@)
    }

    /// Every store keeps its keys unique: message IDs in the inbox and the
    /// outbox, devices in the fences, and revision, snapshot and reference
    /// IDs. A caller calls this to learn it of a store it holds.
    pub fn keys_are_unique(&self)
        ensures
            store_keys_unique(self@),
    {
        proof {
            use_type_invariant(self);
        }
    }

    /// An empty store whose inbox and outbox each hold at most `max_queue`
    /// pending messages.
    pub fn new(max_queue: usize) -> (r: Store)
        ensures
            r@.inbox.len() == 0 && r@.outbox.len() == 0 && r@.fences.len() == 0 && r@.revisions.len() == 0
                && r@.snapshots.len() == 0 && r@.references.len() == 0 && r@.max_queue == max_queue,
    {
        let s = Store {
            inbox: Vec::new(),
            outbox: Vec::new(),
            fences: Vec::new(),
            revisions: Vec::new(),
            snapshots: Vec::new(),
            references: Vec::new(),
            max_queue,
        };
        assert(s@.inbox =~= Seq::<InboxView>::empty());
        s
    }

    /// Durably records an inbound envelope before its transport
    /// acknowledgement. An exact replay is a duplicate; a reused ID with other
    /// contents, an invalid envelope, a stale fence or epoch, or a full inbox
    /// is refused and leaves the store unchanged.
    pub fn receive(&mut self, envelope: &MessageEnvelope, now_ms: u64) -> (r: Result<ReceiveOutcome, StorageError>)
        ensures
            match receive_decision(old(self)@, envelope@, now_ms) {
                ReceiveDecision::Duplicate => r == Ok::<ReceiveOutcome, StorageError>(ReceiveOutcome::Duplicate)
                    && final(self)@ == old(self)@,
                ReceiveDecision::Conflict => (r matches Err(StorageError::ConflictingMessageId(id)) && id@ == envelope@.message_id)
                    && final(self)@ == old(self)@,
                ReceiveDecision::Invalid(m) => r == Err::<ReceiveOutcome, StorageError>(StorageError::InvalidMessage(m))
                    && final(self)@ == old(self)@,
                ReceiveDecision::Stale(f) => (r matches Err(x) && fence_error_matches(x, f, envelope@)) && final(self)@ == old(self)@,
                ReceiveDecision::Full => r == Err::<ReceiveOutcome, StorageError>(StorageError::QueueFull { limit: old(self)@.max_queue })
                    && final(self)@ == old(self)@,
                ReceiveDecision::Insert => r == Ok::<ReceiveOutcome, StorageError>(ReceiveOutcome::Inserted)
                    && final(self)@ == received(old(self)@, envelope@, now_ms),
            },
    {
        proof {
            use_type_invariant(&*self);
        }
        let ghost v = self@;
        match find_inbox(&self.inbox, &envelope.message_id) {
            Some(k) => {
                proof {
                    let c = choose|c: int| first_inbox(v.inbox, envelope@.message_id, c);
                    if c < k {
                        assert(v.inbox[c].envelope.message_id != envelope@.message_id);
                    } else if k < c {
                        assert(v.inbox[k as int].envelope.message_id != envelope@.message_id);
                    }
                    assert(v.inbox[k as int] == self.inbox@[k as int]@);
                }
                if self.inbox[k].envelope.same(envelope) {
                    return Ok(ReceiveOutcome::Duplicate);
                }
                return Err(StorageError::ConflictingMessageId(envelope.message_id.clone()));
            },
            None => {},
        }
        validate(envelope, now_ms)?;
        check_fence(&self.fences, envelope)?;
        let count = count_surviving_inbox(&self.inbox, &self.fences, envelope, now_ms);
        if count >= self.max_queue {
            return Err(StorageError::QueueFull { limit: self.max_queue });
        }
        let ghost fs2 = set_fence(v.fences, envelope@);
        proof {
            lemma_set_fence(v.fences, envelope@, envelope@.device.device_id);
        }
        let mut taken = Store::new(0);
        std::mem::swap(&mut taken, self);
        let Store { mut inbox, mut outbox, mut fences, revisions, snapshots, references, max_queue } = taken;
        set_fence_exec(&mut fences, envelope);
        retire_inbox_exec(&mut inbox, &fences, now_ms);
        retire_outbox_exec(&mut outbox, &fences, now_ms);
        inbox.push(InboxRecord { envelope: envelope.duplicate(), received_at_ms: now_ms, processed_at_ms: None, discarded_at_ms: None });
        proof {
            let w = view_inbox(inbox@);
            assert forall|i: int, j: int| 0 <= i < j < w.len() implies (#[trigger] w[i]).envelope.message_id
                != (#[trigger] w[j]).envelope.message_id by {
                assert(w[i] == inbox@[i]@);
                assert(w[j] == inbox@[j]@);
                assert(inbox@[i].envelope@ == v.inbox[i].envelope);
                if j == w.len() - 1 {
                    assert(!first_inbox(v.inbox, envelope@.message_id, i));
                    if v.inbox[i].envelope.message_id == envelope@.message_id {
                        let m = choose|m: int| 0 <= m < i && v.inbox[m].envelope.message_id == envelope@.message_id;
                        assert(v.inbox[m].envelope.message_id == v.inbox[i].envelope.message_id);
                    }
                } else {
                    assert(inbox@[j].envelope@ == v.inbox[j].envelope);
                }
            }
            let o = view_outbox(outbox@);
            assert forall|i: int, j: int| 0 <= i < j < o.len() implies (#[trigger] o[i]).envelope.message_id
                != (#[trigger] o[j]).envelope.message_id by {
                assert(o[i] == outbox@[i]@);
                assert(o[j] == outbox@[j]@);
                assert(outbox@[i].envelope@ == v.outbox[i].envelope);
                assert(outbox@[j].envelope@ == v.outbox[j].envelope);
            }
            assert(view_inbox(inbox@) =~= received(v, envelope@, now_ms).inbox);
        }
        *self = Store { inbox, outbox, fences, revisions, snapshots, references, max_queue };
        Ok(ReceiveOutcome::Inserted)
    }

    /// Adds a sender-side record. It does not claim delivery or physical
    /// execution. An invalid envelope, a reused ID with other contents, a
    /// stale fence or epoch, or a full outbox is refused and changes nothing.
    pub fn enqueue_outbox(&mut self, envelope: &MessageEnvelope, now_ms: u64) -> (r: Result<EnqueueOutcome, StorageError>)
        ensures
            match enqueue_decision(old(self)@, envelope@, now_ms) {
                EnqueueDecision::Invalid(m) => r == Err::<EnqueueOutcome, StorageError>(StorageError::InvalidMessage(m))
                    && final(self)@ == old(self)@,
                EnqueueDecision::Duplicate => r == Ok::<EnqueueOutcome, StorageError>(EnqueueOutcome::Duplicate)
                    && final(self)@ == old(self)@,
                EnqueueDecision::Conflict => (r matches Err(StorageError::ConflictingMessageId(id)) && id@ == envelope@.message_id)
                    && final(self)@ == old(self)@,
                EnqueueDecision::Stale(f) => (r matches Err(x) && fence_error_matches(x, f, envelope@)) && final(self)@ == old(self)@,
                EnqueueDecision::Full => r == Err::<EnqueueOutcome, StorageError>(StorageError::QueueFull { limit: old(self)@.max_queue })
                    && final(self)@ == old(self)@,
                EnqueueDecision::Insert => r == Ok::<EnqueueOutcome, StorageError>(EnqueueOutcome::Enqueued)
                    && final(self)@ == enqueued(old(self)@, envelope@, now_ms),
            },
    {
        proof {
            use_type_invariant(&*self);
        }
        let ghost v = self@;
        validate(envelope, now_ms)?;
        match find_outbox(&self.outbox, &envelope.message_id) {
            Some(k) => {
                proof {
                    let c = choose|c: int| first_outbox(v.outbox, envelope@.message_id, c);
                    if c < k {
                        assert(v.outbox[c].envelope.message_id != envelope@.message_id);
                    } else if k < c {
                        assert(v.outbox[k as int].envelope.message_id != envelope@.message_id);
                    }
                    assert(v.outbox[k as int] == self.outbox@[k as int]@);
                }
                if self.outbox[k].envelope.same(envelope) {
                    return Ok(EnqueueOutcome::Duplicate);
                }
                return Err(StorageError::ConflictingMessageId(envelope.message_id.clone()));
            },
            None => {},
        }
        check_fence(&self.fences, envelope)?;
        let count = count_surviving_outbox(&self.outbox, &self.fences, envelope, now_ms);
        if count >= self.max_queue {
            return Err(StorageError::QueueFull { limit: self.max_queue });
        }
        let mut taken = Store::new(0);
        std::mem::swap(&mut taken, self);
        let Store { mut inbox, mut outbox, mut fences, revisions, snapshots, references, max_queue } = taken;
        set_fence_exec(&mut fences, envelope);
        retire_inbox_exec(&mut inbox, &fences, now_ms);
        retire_outbox_exec(&mut outbox, &fences, now_ms);
        outbox.push(
            OutboxRecord {
                envelope: envelope.duplicate(),
                attempts: 0,
                not_before_ms: now_ms,
                acknowledged_at_ms: None,
                discarded_at_ms: None,
            },
        );
        proof {
            let w = view_outbox(outbox@);
            assert forall|i: int, j: int| 0 <= i < j < w.len() implies (#[trigger] w[i]).envelope.message_id
                != (#[trigger] w[j]).envelope.message_id by {
                assert(w[i] == outbox@[i]@);
                assert(w[j] == outbox@[j]@);
                assert(outbox@[i].envelope@ == v.outbox[i].envelope);
                if j == w.len() - 1 {
                    assert(!first_outbox(v.outbox, envelope@.message_id, i));
                    if v.outbox[i].envelope.message_id == envelope@.message_id {
                        let m = choose|m: int| 0 <= m < i && v.outbox[m].envelope.message_id == envelope@.message_id;
                        assert(v.outbox[m].envelope.message_id == v.outbox[i].envelope.message_id);
                    }
                } else {
                    assert(outbox@[j].envelope@ == v.outbox[j].envelope);
                }
            }
            let n = view_inbox(inbox@);
            assert forall|i: int, j: int| 0 <= i < j < n.len() implies (#[trigger] n[i]).envelope.message_id
                != (#[trigger] n[j]).envelope.message_id by {
                assert(n[i] == inbox@[i]@);
                assert(n[j] == inbox@[j]@);
                assert(inbox@[i].envelope@ == v.inbox[i].envelope);
                assert(inbox@[j].envelope@ == v.inbox[j].envelope);
            }
            assert(view_outbox(outbox@) =~= enqueued(v, envelope@, now_ms).outbox);
        }
        *self = Store { inbox, outbox, fences, revisions, snapshots, references, max_queue };
        Ok(EnqueueOutcome::Enqueued)
    }

    /// Marks an unacknowledged outbox message acknowledged; false when there
    /// is none with this ID.
    pub fn acknowledge_outbox(&mut self, message_id: &str, now_ms: u64) -> (r: Result<bool, StorageError>)
        ensures
            ({
                let v = old(self)@;
                let k = choose|k: int| first_outbox(v.outbox, message_id@, k);
                if (exists|k: int| first_outbox(v.outbox, message_id@, k)) && v.outbox[k].acknowledged_at_ms is None {
                    r == Ok::<bool, StorageError>(true) && final(self)@ == StoreView {
                        outbox: v.outbox.update(k, OutboxView { acknowledged_at_ms: Some(now_ms), ..v.outbox[k] }),
                        ..v
                    }
                } else {
                    r == Ok::<bool, StorageError>(false) && final(self)@ == v
                }
            }),
    {
        proof {
            use_type_invariant(&*self);
        }
        let ghost v = self@;
        let id = message_id.to_string();
        let k = match find_outbox(&self.outbox, &id) {
            Some(k) => k,
            None => {
                return Ok(false);
            },
        };
        proof {
            lemma_first_outbox_unique(v.outbox, message_id@, k as int);
            assert(v.outbox[k as int] == self.outbox@[k as int]@);
        }
        if self.outbox[k].acknowledged_at_ms.is_some() {
            return Ok(false);
        }
        let mut taken = Store::new(0);
        std::mem::swap(&mut taken, self);
        let Store { inbox, mut outbox, fences, revisions, snapshots, references, max_queue } = taken;
        let mut rec = outbox.remove(k);
        rec.acknowledged_at_ms = Some(now_ms);
        outbox.insert(k, rec);
        proof {
            assert(view_outbox(outbox@) =~= v.outbox.update(k as int, OutboxView { acknowledged_at_ms: Some(now_ms), ..v.outbox[k as int] }));
        }
        *self = Store { inbox, outbox, fences, revisions, snapshots, references, max_queue };
        Ok(true)
    }

    /// Schedules another delivery attempt: the attempt count grows by one and
    /// the next eligible time never moves backwards. False when no pending
    /// message has this ID; a retry past the envelope's expiry, or of a
    /// message whose device has moved to a newer fence or epoch, is refused.
    pub fn retry_outbox(&mut self, message_id: &str, not_before_ms: u64) -> (r: Result<bool, StorageError>)
        ensures
            ({
                let v = old(self)@;
                let k = choose|k: int| first_outbox(v.outbox, message_id@, k);
                let row = v.outbox[k];
                let e = row.envelope;
                if !((exists|k: int| first_outbox(v.outbox, message_id@, k)) && outbox_pending(row)) {
                    r == Ok::<bool, StorageError>(false) && final(self)@ == v
                } else if not_before_ms >= e.expires_at_ms {
                    r == Err::<bool, StorageError>(StorageError::InvalidMessage("retry would occur after envelope expiry"))
                        && final(self)@ == v
                } else if retry_fault(v.fences, e) is Some {
                    (r matches Err(x) && fence_error_matches(x, retry_fault(v.fences, e)->0, e)) && final(self)@ == v
                } else {
                    r == Ok::<bool, StorageError>(true) && final(self)@ == StoreView {
                        outbox: v.outbox.update(
                            k,
                            OutboxView {
                                attempts: if row.attempts == u32::MAX { row.attempts } else { (row.attempts + 1) as u32 },
                                not_before_ms: if row.not_before_ms < not_before_ms { not_before_ms } else { row.not_before_ms },
                                ..row
                            },
                        ),
                        ..v
                    }
                }
            }),
    {
        proof {
            use_type_invariant(&*self);
        }
        let ghost v = self@;
        let id = message_id.to_string();
        let k = match find_outbox(&self.outbox, &id) {
            Some(k) => k,
            None => {
                return Ok(false);
            },
        };
        proof {
            lemma_first_outbox_unique(v.outbox, message_id@, k as int);
            assert(v.outbox[k as int] == self.outbox@[k as int]@);
        }
        if self.outbox[k].acknowledged_at_ms.is_some() || self.outbox[k].discarded_at_ms.is_some() {
            return Ok(false);
        }
        if not_before_ms >= self.outbox[k].envelope.expires_at_ms {
            return Err(StorageError::InvalidMessage("retry would occur after envelope expiry"));
        }
        check_current_fence(&self.fences, &self.outbox[k].envelope)?;
        let mut taken = Store::new(0);
        std::mem::swap(&mut taken, self);
        let Store { inbox, mut outbox, fences, revisions, snapshots, references, max_queue } = taken;
        let mut rec = outbox.remove(k);
        rec.attempts = rec.attempts.saturating_add(1);
        if rec.not_before_ms < not_before_ms {
            rec.not_before_ms = not_before_ms;
        }
        outbox.insert(k, rec);
        proof {
            let row = v.outbox[k as int];
            assert(view_outbox(outbox@) =~= v.outbox.update(
                k as int,
                OutboxView {
                    attempts: if row.attempts == u32::MAX { row.attempts } else { (row.attempts + 1) as u32 },
                    not_before_ms: if row.not_before_ms < not_before_ms { not_before_ms } else { row.not_before_ms },
                    ..row
                },
            ));
        }
        *self = Store { inbox, outbox, fences, revisions, snapshots, references, max_queue };
        Ok(true)
    }

    /// Processing completion is durable and idempotent; it does not erase the
    /// receipt tombstone. False when no pending receipt has this ID.
    pub fn mark_inbox_processed(&mut self, message_id: &str, processed_at_ms: u64) -> (r: Result<bool, StorageError>)
        ensures
            ({
                let v = old(self)@;
                let k = choose|k: int| first_inbox(v.inbox, message_id@, k);
                if (exists|k: int| first_inbox(v.inbox, message_id@, k)) && inbox_pending(v.inbox[k]) {
                    r == Ok::<bool, StorageError>(true) && final(self)@ == StoreView {
                        inbox: v.inbox.update(k, InboxView { processed_at_ms: Some(processed_at_ms), ..v.inbox[k] }),
                        ..v
                    }
                } else {
                    r == Ok::<bool, StorageError>(false) && final(self)@ == v
                }
            }),
    {
        proof {
            use_type_invariant(&*self);
        }
        let ghost v = self@;
        let id = message_id.to_string();
        let k = match find_inbox(&self.inbox, &id) {
            Some(k) => k,
            None => {
                return Ok(false);
            },
        };
        proof {
            lemma_first_inbox_unique(v.inbox, message_id@, k as int);
            assert(v.inbox[k as int] == self.inbox@[k as int]@);
        }
        if self.inbox[k].processed_at_ms.is_some() || self.inbox[k].discarded_at_ms.is_some() {
            return Ok(false);
        }
        let mut taken = Store::new(0);
        std::mem::swap(&mut taken, self);
        let Store { mut inbox, outbox, fences, revisions, snapshots, references, max_queue } = taken;
        let mut rec = inbox.remove(k);
        rec.processed_at_ms = Some(processed_at_ms);
        inbox.insert(k, rec);
        proof {
            assert(view_inbox(inbox@) =~= v.inbox.update(k as int, InboxView { processed_at_ms: Some(processed_at_ms), ..v.inbox[k as int] }));
        }
        *self = Store { inbox, outbox, fences, revisions, snapshots, references, max_queue };
        Ok(true)
    }
}

pub enum EnqueueDecision {
    Invalid(&'static str),
    Duplicate,
    Conflict,
    Stale(FenceFault),
    Full,
    Insert,
}

pub open spec fn enqueue_decision(v: StoreView, e: MessageEnvelopeView, now_ms: u64) -> EnqueueDecision {
    if envelope_fault(e, now_ms) is Some {
        EnqueueDecision::Invalid(envelope_fault(e, now_ms)->0)
    } else if exists|k: int| first_outbox(v.outbox, e.message_id, k) {
        let k = choose|k: int| first_outbox(v.outbox, e.message_id, k);
        if v.outbox[k].envelope == e { EnqueueDecision::Duplicate } else { EnqueueDecision::Conflict }
    } else if fence_fault(v.fences, e) is Some {
        EnqueueDecision::Stale(fence_fault(v.fences, e)->0)
    } else if count_outbox_pending(retire_outbox(v.outbox, set_fence(v.fences, e), now_ms)) >= v.max_queue {
        EnqueueDecision::Full
    } else {
        EnqueueDecision::Insert
    }
}

/// The store after a sent envelope is recorded with no attempts yet.
pub open spec fn enqueued(v: StoreView, e: MessageEnvelopeView, now_ms: u64) -> StoreView {
    let fs = set_fence(v.fences, e);
    StoreView {
        inbox: retire_inbox(v.inbox, fs, now_ms),
        outbox: retire_outbox(v.outbox, fs, now_ms).push(
            OutboxView { envelope: e, attempts: 0, not_before_ms: now_ms, acknowledged_at_ms: None, discarded_at_ms: None },
        ),
        fences: fs,
        ..v
    }
}

/// Why a retry is refused by the device's fence: it moved to a newer
/// generation, or to a newer epoch of the same generation.
pub open spec fn retry_fault(fs: Seq<FenceView>, e: MessageEnvelopeView) -> Option<FenceFault> {
    match fence_of(fs, e.device.device_id) {
        Some((g, ep)) => if g > e.device.fencing_generation {
            Some(FenceFault::StaleFence(g))
        } else if g == e.device.fencing_generation && ep > e.plan_epoch {
            Some(FenceFault::StaleEpoch(ep))
        } else {
            None
        },
        None => None,
    }
}

fn check_current_fence(fences: &Vec<DeviceFence>, e: &MessageEnvelope) -> (r: Result<(), StorageError>)
    requires
        unique_fences(view_fences(fences@)),
    ensures
        match retry_fault(view_fences(fences@), e@) {
            None => r is Ok,
            Some(f) => r matches Err(x) && fence_error_matches(x, f, e@),
        },
{
    match fence_value(fences, &e.device.device_id) {
        Some((g, ep)) => {
            if g > e.device.fencing_generation {
                return Err(StorageError::StaleFence {
                    device_id: e.device.device_id.clone(),
                    received: e.device.fencing_generation,
                    current: g,
                });
            }
            if g == e.device.fencing_generation && ep > e.plan_epoch {
                return Err(StorageError::StaleEpoch {
                    device_id: e.device.device_id.clone(),
                    received: e.plan_epoch,
                    current: ep,
                });
            }
            Ok(())
        },
        None => Ok(()),
    }
}

proof fn lemma_first_outbox_unique(rows: Seq<OutboxView>, id: Seq<char>, k: int)
    requires
        first_outbox(rows, id, k),
    ensures
        (choose|c: int| first_outbox(rows, id, c)) == k,
{
    let c = choose|c: int| first_outbox(rows, id, c);
    if c < k {
        assert(rows[c].envelope.message_id != id);
    } else if k < c {
        assert(rows[k].envelope.message_id != id);
    }
}

proof fn lemma_first_inbox_unique(rows: Seq<InboxView>, id: Seq<char>, k: int)
    requires
        first_inbox(rows, id, k),
    ensures
        (choose|c: int| first_inbox(rows, id, c)) == k,
{
    let c = choose|c: int| first_inbox(rows, id, c);
    if c < k {
        assert(rows[c].envelope.message_id != id);
    } else if k < c {
        assert(rows[k].envelope.message_id != id);
    }
}

/// The number of pending outbox records that stay pending once `e` records its fence.
fn count_surviving_outbox(rows: &Vec<OutboxRecord>, fences: &Vec<DeviceFence>, e: &MessageEnvelope, now_ms: u64) -> (r: usize)
    requires
        unique_fences(view_fences(fences@)),
    ensures
        r == count_outbox_pending(retire_outbox(view_outbox(rows@), set_fence(view_fences(fences@), e@), now_ms)),
{
    let ghost fs2 = set_fence(view_fences(fences@), e@);
    let ghost full = retire_outbox(view_outbox(rows@), fs2, now_ms);
    let mut n: usize = 0;
    let mut i: usize = 0;
    while i < rows.len()
        invariant
            unique_fences(view_fences(fences@)),
            fs2 == set_fence(view_fences(fences@), e@),
            full == retire_outbox(view_outbox(rows@), fs2, now_ms),
            full.len() == rows@.len(),
            i <= rows@.len(),
            n <= i,
            n == count_outbox_pending(full.subrange(0, i as int)),
        decreases rows@.len() - i,
    {
        let r = &rows[i];
        let pending = r.acknowledged_at_ms.is_none() && r.discarded_at_ms.is_none();
        let keep = pending && is_deliverable_after(fences, e, &r.envelope, now_ms);
        proof {
            let p = full.subrange(0, i + 1);
            assert(p.drop_last() =~= full.subrange(0, i as int));
            assert(p.last() == full[i as int]);
            assert(view_outbox(rows@)[i as int] == r@);
            assert(outbox_pending(full[i as int]) == keep);
        }
        if keep {
            n = n + 1;
        }
        i = i + 1;
    }
    assert(full.subrange(0, rows@.len() as int) =~= full);
    n
}

/// Byte-wise lexicographic order, a proper prefix first (how the store
/// collates message IDs).
pub open spec fn bytes_lt(a: Seq<u8>, b: Seq<u8>) -> bool
    decreases a.len(),
{
    if a.len() == 0 {
        b.len() > 0
    } else if b.len() == 0 {
        false
    } else if a[0] != b[0] {
        a[0] < b[0]
    } else {
        bytes_lt(a.drop_first(), b.drop_first())
    }
}

pub proof fn lemma_bytes_lt_irreflexive(a: Seq<u8>)
    ensures
        !bytes_lt(a, a),
    decreases a.len(),
{
    if a.len() > 0 {
        lemma_bytes_lt_irreflexive(a.drop_first());
    }
}

pub proof fn lemma_bytes_lt_transitive(a: Seq<u8>, b: Seq<u8>, c: Seq<u8>)
    requires
        bytes_lt(a, b),
        bytes_lt(b, c),
    ensures
        bytes_lt(a, c),
    decreases a.len(),
{
    if a.len() > 0 && b.len() > 0 && c.len() > 0 && a[0] == b[0] && b[0] == c[0] {
        lemma_bytes_lt_transitive(a.drop_first(), b.drop_first(), c.drop_first());
    }
}

pub proof fn lemma_bytes_lt_total(a: Seq<u8>, b: Seq<u8>)
    requires
        a != b,
    ensures
        bytes_lt(a, b) || bytes_lt(b, a),
    decreases a.len(),
{
    if a.len() == 0 && b.len() == 0 {
        assert(a =~= b);
    } else if a.len() > 0 && b.len() > 0 && a[0] == b[0] {
        if a.drop_first() =~= b.drop_first() {
            assert(a =~= seq![a[0]] + a.drop_first());
            assert(b =~= seq![b[0]] + b.drop_first());
        } else {
            lemma_bytes_lt_total(a.drop_first(), b.drop_first());
        }
    }
}

/// The order of a listing: by time, then by the primary and the secondary
/// identifier's bytes, then by sequence number.
pub open spec fn key_lt(a: (u64, Seq<u8>, Seq<u8>, u64), b: (u64, Seq<u8>, Seq<u8>, u64)) -> bool {
    a.0 < b.0 || (a.0 == b.0 && (bytes_lt(a.1, b.1) || (a.1 == b.1 && (bytes_lt(a.2, b.2) || (a.2 == b.2 && a.3 < b.3)))))
}

pub proof fn lemma_key_order(a: (u64, Seq<u8>, Seq<u8>, u64), b: (u64, Seq<u8>, Seq<u8>, u64), c: (u64, Seq<u8>, Seq<u8>, u64))
    ensures
        !key_lt(a, a),
        key_lt(a, b) && key_lt(b, c) ==> key_lt(a, c),
        a != b ==> key_lt(a, b) || key_lt(b, a),
{
    lemma_bytes_lt_irreflexive(a.1);
    lemma_bytes_lt_irreflexive(a.2);
    if key_lt(a, b) && key_lt(b, c) && a.0 == b.0 && b.0 == c.0 {
        if bytes_lt(a.1, b.1) && bytes_lt(b.1, c.1) {
            lemma_bytes_lt_transitive(a.1, b.1, c.1);
        }
        if a.1 == b.1 && b.1 == c.1 && bytes_lt(a.2, b.2) && bytes_lt(b.2, c.2) {
            lemma_bytes_lt_transitive(a.2, b.2, c.2);
        }
    }
    if a != b && a.0 == b.0 {
        if a.1 != b.1 {
            lemma_bytes_lt_total(a.1, b.1);
        } else if a.2 != b.2 {
            lemma_bytes_lt_total(a.2, b.2);
        }
    }
}

pub fn bytes_lt_exec(a: &[u8], b: &[u8]) -> (r: bool)
    ensures
        r == bytes_lt(a@, b@),
{
    let mut i: usize = 0;
    assert(a@.subrange(0, a@.len() as int) =~= a@);
    assert(b@.subrange(0, b@.len() as int) =~= b@);
    while i < a.len() && i < b.len()
        invariant
            i <= a@.len(),
            i <= b@.len(),
            a@.subrange(0, i as int) == b@.subrange(0, i as int),
            bytes_lt(a@, b@) == bytes_lt(a@.subrange(i as int, a@.len() as int), b@.subrange(i as int, b@.len() as int)),
        decreases a@.len() - i,
    {
        if a[i] != b[i] {
            proof {
                let sa = a@.subrange(i as int, a@.len() as int);
                let sb = b@.subrange(i as int, b@.len() as int);
                assert(sa[0] == a@[i as int]);
                assert(sb[0] == b@[i as int]);
            }
            return a[i] < b[i];
        }
        proof {
            let sa = a@.subrange(i as int, a@.len() as int);
            let sb = b@.subrange(i as int, b@.len() as int);
            assert(sa.drop_first() =~= a@.subrange(i + 1, a@.len() as int));
            assert(sb.drop_first() =~= b@.subrange(i + 1, b@.len() as int));
            assert(a@.subrange(0, i + 1) =~= a@.subrange(0, i as int).push(a@[i as int]));
            assert(b@.subrange(0, i + 1) =~= b@.subrange(0, i as int).push(b@[i as int]));
        }
        i = i + 1;
    }
    i < b.len()
}

/// One candidate of an ordered listing: its time, its primary and
/// secondary identifiers' bytes, its sequence number, and whether it may be
/// listed.
pub struct Candidate {
    pub at_ms: u64,
    pub id: Vec<u8>,
    pub sub: Vec<u8>,
    pub seq: u64,
    pub eligible: bool,
}

pub struct CandidateView {
    pub at_ms: u64,
    pub id: Seq<u8>,
    pub sub: Seq<u8>,
    pub seq: u64,
    pub eligible: bool,
}

impl View for Candidate {
    type V = CandidateView;
    open spec fn view(&self) -> CandidateView {
        CandidateView { at_ms: self.at_ms, id: self.id@, sub: self.sub@, seq: self.seq, eligible: self.eligible }
    }
}

fn cand_lt(a: &Candidate, b: &Candidate) -> (r: bool)
    ensures
        r == key_lt(cand_key(a@), cand_key(b@)),
{
    if a.at_ms != b.at_ms {
        return a.at_ms < b.at_ms;
    }
    if bytes_lt_exec(a.id.as_slice(), b.id.as_slice()) {
        return true;
    }
    if !bytes_eq(a.id.as_slice(), b.id.as_slice()) {
        return false;
    }
    if bytes_lt_exec(a.sub.as_slice(), b.sub.as_slice()) {
        return true;
    }
    bytes_eq(a.sub.as_slice(), b.sub.as_slice()) && a.seq < b.seq
}

fn bytes_eq(a: &[u8], b: &[u8]) -> (r: bool)
    ensures
        r == (a@ == b@),
{
    if a.len() != b.len() {
        return false;
    }
    let mut i: usize = 0;
    while i < a.len()
        invariant
            a@.len() == b@.len(),
            i <= a@.len(),
            forall|j: int| 0 <= j < i ==> a@[j] == b@[j],
        decreases a@.len() - i,
    {
        if a[i] != b[i] {
            return false;
        }
        i = i + 1;
    }
    assert(a@ =~= b@);
    true
}

pub open spec fn view_cands(cs: Seq<Candidate>) -> Seq<CandidateView> {
    cs.map_values(|c: Candidate| c@)
}

pub open spec fn cand_key(c: CandidateView) -> (u64, Seq<u8>, Seq<u8>, u64) {
    (c.at_ms, c.id, c.sub, c.seq)
}

/// Indices `r` list the eligible candidates in key order, from the least, as
/// many as `limit` allows: each listed candidate is eligible, the keys
/// ascend, every eligible candidate below a listed one is listed before it,
/// and a short listing lists them all.
pub open spec fn first_in_order(cs: Seq<CandidateView>, r: Seq<usize>, limit: usize) -> bool {
    &&& r.len() <= limit
    &&& forall|i: int| 0 <= i < r.len() ==> (#[trigger] r[i]) < cs.len() && cs[r[i] as int].eligible
    &&& forall|i: int, j: int| 0 <= i < j < r.len() ==> key_lt(cand_key(cs[#[trigger] r[i] as int]), cand_key(cs[#[trigger] r[j] as int]))
    &&& forall|k: int, i: int| 0 <= k < cs.len() && 0 <= i < r.len() && (#[trigger] cs[k]).eligible
        && key_lt(cand_key(cs[k]), cand_key(cs[#[trigger] r[i] as int])) ==> exists|j: int| 0 <= j < i && r[j] == k
    &&& r.len() < limit ==> forall|k: int| 0 <= k < cs.len() && (#[trigger] cs[k]).eligible ==> exists|j: int| 0 <= j < r.len() && r[j] == k
}

pub open spec fn distinct_keys(cs: Seq<CandidateView>) -> bool {
    forall|i: int, j: int| 0 <= i < j < cs.len() ==> cand_key(#[trigger] cs[i]) != cand_key(#[trigger] cs[j])
}

/// The least eligible candidate above `last` (any, with no `last`).
fn next_candidate(cs: &Vec<Candidate>, last: Option<usize>) -> (r: Option<usize>)
    requires
        last matches Some(l) ==> l < cs@.len(),
    ensures
        r matches Some(m) ==> m < cs@.len() && view_cands(cs@)[m as int].eligible
            && (last matches Some(l) ==> key_lt(cand_key(view_cands(cs@)[l as int]), cand_key(view_cands(cs@)[m as int])))
            && forall|k: int| 0 <= k < cs@.len() && (#[trigger] view_cands(cs@)[k]).eligible
                && (last matches Some(l) ==> key_lt(cand_key(view_cands(cs@)[l as int]), cand_key(view_cands(cs@)[k])))
                ==> !key_lt(cand_key(view_cands(cs@)[k]), cand_key(view_cands(cs@)[m as int])),
        r is None ==> forall|k: int| 0 <= k < cs@.len() && (#[trigger] view_cands(cs@)[k]).eligible
            ==> !(last matches Some(l) ==> key_lt(cand_key(view_cands(cs@)[l as int]), cand_key(view_cands(cs@)[k]))),
{
    let mut best: Option<usize> = None;
    let mut k: usize = 0;
    while k < cs.len()
        invariant
            last matches Some(l) ==> l < cs@.len(),
            k <= cs@.len(),
            best matches Some(m) ==> m < k && view_cands(cs@)[m as int].eligible
                && (last matches Some(l) ==> key_lt(cand_key(view_cands(cs@)[l as int]), cand_key(view_cands(cs@)[m as int]))),
            forall|j: int| 0 <= j < k && (#[trigger] view_cands(cs@)[j]).eligible
                && (last matches Some(l) ==> key_lt(cand_key(view_cands(cs@)[l as int]), cand_key(view_cands(cs@)[j]))) ==> (best matches Some(m)
                && !key_lt(cand_key(view_cands(cs@)[j]), cand_key(view_cands(cs@)[m as int]))),
        decreases cs@.len() - k,
    {
        let c = &cs[k];
        assert(view_cands(cs@)[k as int] == c@);
        let above = match last {
            Some(l) => {
                let p = &cs[l];
                assert(view_cands(cs@)[l as int] == p@);
                cand_lt(p, c)
            },
            None => true,
        };
        if c.eligible && above {
            let better = match best {
                Some(m) => {
                    let b = &cs[m];
                    assert(view_cands(cs@)[m as int] == b@);
                    cand_lt(c, b)
                },
                None => true,
            };
            if better {
                proof {
                    assert forall|j: int| 0 <= j < k + 1 && (#[trigger] view_cands(cs@)[j]).eligible
                        && (last matches Some(l) ==> key_lt(cand_key(view_cands(cs@)[l as int]), cand_key(view_cands(cs@)[j])))
                        implies !key_lt(cand_key(view_cands(cs@)[j]), cand_key(view_cands(cs@)[k as int])) by {
                        if j < k {
                            let m = best->0;
                            lemma_key_order(cand_key(view_cands(cs@)[j]), cand_key(view_cands(cs@)[k as int]), cand_key(view_cands(cs@)[m as int]));
                            lemma_key_order(cand_key(view_cands(cs@)[j]), cand_key(view_cands(cs@)[m as int]), cand_key(view_cands(cs@)[k as int]));
                        } else {
                            lemma_key_order(cand_key(view_cands(cs@)[j]), cand_key(view_cands(cs@)[j]), cand_key(view_cands(cs@)[j]));
                        }
                    }
                }
                best = Some(k);
            } else {
                proof {
                    let m = best->0;
                    assert forall|j: int| 0 <= j < k + 1 && (#[trigger] view_cands(cs@)[j]).eligible
                        && (last matches Some(l) ==> key_lt(cand_key(view_cands(cs@)[l as int]), cand_key(view_cands(cs@)[j])))
                        implies !key_lt(cand_key(view_cands(cs@)[j]), cand_key(view_cands(cs@)[m as int])) by {
                        if j == k {
                        }
                    }
                }
            }
        }
        k = k + 1;
    }
    best
}

/// Lists the eligible candidates in key order, at most `limit` of them.
#[verifier::rlimit(40)]
#[verifier::spinoff_prover]
pub(crate) fn order_candidates(cs: &Vec<Candidate>, limit: usize) -> (r: Vec<usize>)
    requires
        distinct_keys(view_cands(cs@)),
    ensures
        first_in_order(view_cands(cs@), r@, limit),
{
    let mut out: Vec<usize> = Vec::new();
    let mut last: Option<usize> = None;
    while out.len() < limit
        invariant
            distinct_keys(view_cands(cs@)),
            out@.len() <= limit,
            last is None <==> out@.len() == 0,
            last matches Some(l) ==> out@.len() > 0 && l == out@[out@.len() - 1] && l < cs@.len(),
            forall|i: int| 0 <= i < out@.len() ==> (#[trigger] out@[i]) < cs@.len() && view_cands(cs@)[out@[i] as int].eligible,
            forall|i: int, j: int| 0 <= i < j < out@.len() ==> key_lt(cand_key(view_cands(cs@)[#[trigger] out@[i] as int]), cand_key(view_cands(cs@)[#[trigger] out@[j] as int])),
            forall|k: int, i: int| 0 <= k < cs@.len() && 0 <= i < out@.len() && (#[trigger] view_cands(cs@)[k]).eligible
                && !key_lt(cand_key(view_cands(cs@)[#[trigger] out@[i] as int]), cand_key(view_cands(cs@)[k])) ==> exists|j: int| 0 <= j <= i && out@[j] == k,
        decreases limit - out@.len(),
    {
        match next_candidate(cs, last) {
            Some(m) => {
                proof {
                    let n = out@.len() as int;
                    let o2 = out@.push(m);
                    assert forall|i: int, j: int| 0 <= i < j < o2.len() implies key_lt(cand_key(view_cands(cs@)[#[trigger] o2[i] as int]), cand_key(view_cands(cs@)[#[trigger] o2[j] as int])) by {
                        if j == n {
                            let l = last->0;
                            if i < n - 1 {
                                assert(key_lt(cand_key(view_cands(cs@)[o2[i] as int]), cand_key(view_cands(cs@)[l as int])));
                                lemma_key_order(cand_key(view_cands(cs@)[o2[i] as int]), cand_key(view_cands(cs@)[l as int]), cand_key(view_cands(cs@)[m as int]));
                            }
                        } else {
                            assert(o2[i] == out@[i] && o2[j] == out@[j]);
                        }
                    }
                    assert forall|k: int, i: int| 0 <= k < cs@.len() && 0 <= i < o2.len() && (#[trigger] view_cands(cs@)[k]).eligible
                        && !key_lt(cand_key(view_cands(cs@)[#[trigger] o2[i] as int]), cand_key(view_cands(cs@)[k])) implies exists|j: int| 0 <= j <= i && o2[j] == k by {
                        if i == n {
                            if n > 0 {
                                let l = last->0;
                                if key_lt(cand_key(view_cands(cs@)[l as int]), cand_key(view_cands(cs@)[k])) {
                                    if cand_key(view_cands(cs@)[k]) == cand_key(view_cands(cs@)[m as int]) {
                                        if k != m as int {
                                            if k < m {
                                                assert(cand_key(view_cands(cs@)[k]) != cand_key(view_cands(cs@)[m as int]));
                                            } else {
                                                assert(cand_key(view_cands(cs@)[m as int]) != cand_key(view_cands(cs@)[k]));
                                            }
                                        }
                                        assert(o2[n] == k);
                                    } else {
                                        lemma_key_order(cand_key(view_cands(cs@)[k]), cand_key(view_cands(cs@)[m as int]), cand_key(view_cands(cs@)[k]));
                                    }
                                } else {
                                    assert(out@[n - 1] == l);
                                    let j = choose|j: int| 0 <= j <= n - 1 && out@[j] == k;
                                    assert(o2[j] == k);
                                }
                            } else {
                                if cand_key(view_cands(cs@)[k]) == cand_key(view_cands(cs@)[m as int]) {
                                    if k != m as int {
                                        if k < m {
                                            assert(cand_key(view_cands(cs@)[k]) != cand_key(view_cands(cs@)[m as int]));
                                        } else {
                                            assert(cand_key(view_cands(cs@)[m as int]) != cand_key(view_cands(cs@)[k]));
                                        }
                                    }
                                    assert(o2[n] == k);
                                } else {
                                    lemma_key_order(cand_key(view_cands(cs@)[k]), cand_key(view_cands(cs@)[m as int]), cand_key(view_cands(cs@)[k]));
                                }
                            }
                        } else {
                            assert(o2[i] == out@[i]);
                            let j = choose|j: int| 0 <= j <= i && out@[j] == k;
                            assert(o2[j] == k);
                        }
                    }
                }
                out.push(m);
                last = Some(m);
            },
            None => {
                proof {
                    assert forall|k: int| 0 <= k < cs@.len() && (#[trigger] view_cands(cs@)[k]).eligible implies exists|j: int| 0 <= j < out@.len() && out@[j] == k by {
                        let n = out@.len() as int;
                        let l = last->0;
                        assert(!key_lt(cand_key(view_cands(cs@)[out@[n - 1] as int]), cand_key(view_cands(cs@)[k])));
                        let j = choose|j: int| 0 <= j <= n - 1 && out@[j] == k;
                    }
                }
                proof {
                    assert forall|k: int, i: int| 0 <= k < cs@.len() && 0 <= i < out@.len() && (#[trigger] view_cands(cs@)[k]).eligible
                        && key_lt(cand_key(view_cands(cs@)[k]), cand_key(view_cands(cs@)[#[trigger] out@[i] as int])) implies exists|j: int| 0 <= j < i && out@[j] == k by {
                        lemma_key_order(cand_key(view_cands(cs@)[k]), cand_key(view_cands(cs@)[out@[i] as int]), cand_key(view_cands(cs@)[k]));
                        let j = choose|j: int| 0 <= j <= i && out@[j] == k;
                        if j == i {
                            lemma_key_order(cand_key(view_cands(cs@)[k]), cand_key(view_cands(cs@)[k]), cand_key(view_cands(cs@)[k]));
                        }
                    }
                }
                return out;
            },
        }
    }
    proof {
        assert forall|k: int, i: int| 0 <= k < cs@.len() && 0 <= i < out@.len() && (#[trigger] view_cands(cs@)[k]).eligible
            && key_lt(cand_key(view_cands(cs@)[k]), cand_key(view_cands(cs@)[#[trigger] out@[i] as int])) implies exists|j: int| 0 <= j < i && out@[j] == k by {
            lemma_key_order(cand_key(view_cands(cs@)[k]), cand_key(view_cands(cs@)[out@[i] as int]), cand_key(view_cands(cs@)[k]));
            let j = choose|j: int| 0 <= j <= i && out@[j] == k;
            if j == i {
                lemma_key_order(cand_key(view_cands(cs@)[k]), cand_key(view_cands(cs@)[k]), cand_key(view_cands(cs@)[k]));
            }
        }
    }
    out
}

#[derive(Debug)]
pub struct OutboxMessage {
    pub envelope: MessageEnvelope,
    pub attempts: u32,
    pub not_before_ms: u64,
}

#[derive(Debug)]
pub struct InboxMessage {
    pub envelope: MessageEnvelope,
    pub received_at_ms: u64,
}

/// A routing filter on pending receipts: sender, recipient and device binding.
pub struct RouteView {
    pub sender: Seq<char>,
    pub recipient: Seq<char>,
    pub device: DeviceBindingView,
}

pub open spec fn on_route(e: MessageEnvelopeView, route: Option<RouteView>) -> bool {
    match route {
        Some(r) => e.sender == r.sender && e.recipient == r.recipient && e.device == r.device,
        None => true,
    }
}

/// The inbox as listing candidates: pending, on the route, and deliverable now.
pub open spec fn inbox_cands(v: StoreView, now_ms: u64, route: Option<RouteView>) -> Seq<CandidateView> {
    v.inbox.map_values(
        |row: InboxView|
            CandidateView {
                at_ms: row.received_at_ms,
                id: vstd::utf8::encode_utf8(row.envelope.message_id),
                sub: Seq::empty(),
                seq: 0,
                eligible: inbox_pending(row) && on_route(row.envelope, route) && deliverable(v.fences, row.envelope, now_ms),
            },
    )
}

/// The outbox as listing candidates: pending, due by `now_ms`, and deliverable now.
pub open spec fn outbox_cands(v: StoreView, now_ms: u64) -> Seq<CandidateView> {
    v.outbox.map_values(
        |row: OutboxView|
            CandidateView {
                at_ms: row.not_before_ms,
                id: vstd::utf8::encode_utf8(row.envelope.message_id),
                sub: Seq::empty(),
                seq: 0,
                eligible: outbox_pending(row) && row.not_before_ms <= now_ms && deliverable(v.fences, row.envelope, now_ms),
            },
    )
}

/// `r` lists the inbox rows at `idx`.
pub open spec fn lists_inbox(v: StoreView, idx: Seq<usize>, r: Seq<InboxMessage>) -> bool {
    &&& r.len() == idx.len()
    &&& forall|i: int| 0 <= i < r.len() ==> (#[trigger] r[i]).envelope@ == v.inbox[idx[i] as int].envelope
        && r[i].received_at_ms == v.inbox[idx[i] as int].received_at_ms
}

pub open spec fn lists_outbox(v: StoreView, idx: Seq<usize>, r: Seq<OutboxMessage>) -> bool {
    &&& r.len() == idx.len()
    &&& forall|i: int| 0 <= i < r.len() ==> (#[trigger] r[i]).envelope@ == v.outbox[idx[i] as int].envelope
        && r[i].attempts == v.outbox[idx[i] as int].attempts && r[i].not_before_ms == v.outbox[idx[i] as int].not_before_ms
}

/// `list` holds, in order, the first `limit` listable inbox records.
pub open spec fn inbox_listing(v: StoreView, now_ms: u64, route: Option<RouteView>, limit: usize, list: Seq<InboxMessage>) -> bool {
    exists|idx: Seq<usize>| #[trigger] first_in_order(inbox_cands(v, now_ms, route), idx, limit) && lists_inbox(v, idx, list)
}

/// `list` holds, in order, the first `limit` ready outbox records.
pub open spec fn outbox_listing(v: StoreView, now_ms: u64, limit: usize, list: Seq<OutboxMessage>) -> bool {
    exists|idx: Seq<usize>| #[trigger] first_in_order(outbox_cands(v, now_ms), idx, limit) && lists_outbox(v, idx, list)
}

impl Store {
    /// Durable, unprocessed receipts still current for their device, oldest
    /// first (by receipt time, then message ID), at most `limit` of them.
    /// Older generations and epochs stay as deduplication tombstones.
    pub fn pending_inbox(&self, now_ms: u64, limit: usize) -> (r: Result<Vec<InboxMessage>, StorageError>)
        ensures
            r matches Ok(list) && inbox_listing(self@, now_ms, None, limit, list@),
    {
        self.pending_inbox_matching(now_ms, limit, None)
    }

    /// As `pending_inbox`, restricted to one sender, recipient and device
    /// binding before the limit applies, so one route cannot starve another.
    pub fn pending_inbox_route(&self, now_ms: u64, limit: usize, sender: &str, recipient: &str, device: &DeviceBinding)
        -> (r: Result<Vec<InboxMessage>, StorageError>)
        ensures
            r matches Ok(list) && inbox_listing(
                self@,
                now_ms,
                Some(RouteView { sender: sender@, recipient: recipient@, device: device@ }),
                limit,
                list@,
            ),
    {
        self.pending_inbox_matching(now_ms, limit, Some((sender, recipient, device)))
    }

    fn pending_inbox_matching(&self, now_ms: u64, limit: usize, route: Option<(&str, &str, &DeviceBinding)>)
        -> (r: Result<Vec<InboxMessage>, StorageError>)
        ensures
            ({
                let rv = match route {
                    Some(x) => Some(RouteView { sender: x.0@, recipient: x.1@, device: x.2@ }),
                    None => None,
                };
                r matches Ok(list) && inbox_listing(self@, now_ms, rv, limit, list@)
            }),
    {
        proof {
            use_type_invariant(self);
        }
        let ghost rv = match route {
            Some(x) => Some(RouteView { sender: x.0@, recipient: x.1@, device: x.2@ }),
            None => None,
        };
        let ghost target = inbox_cands(self@, now_ms, rv);
        let mut cs: Vec<Candidate> = Vec::new();
        let mut k: usize = 0;
        while k < self.inbox.len()
            invariant
                unique_fences(view_fences(self.fences@)),
                target == inbox_cands(self@, now_ms, rv),
                rv == match route {
                    Some(x) => Some(RouteView { sender: x.0@, recipient: x.1@, device: x.2@ }),
                    None => None::<RouteView>,
                },
                k <= self.inbox@.len(),
                target.len() == self.inbox@.len(),
                cs@.len() == k,
                view_cands(cs@) == target.subrange(0, k as int),
            decreases self.inbox@.len() - k,
        {
            let row = &self.inbox[k];
            assert(self@.inbox[k as int] == row@);
            let routed = match route {
                Some((snd, rcp, dev)) => str_eq(row.envelope.sender.as_str(), snd) && str_eq(row.envelope.recipient.as_str(), rcp)
                    && row.envelope.device.same(dev),
                None => true,
            };
            let eligible = row.processed_at_ms.is_none() && row.discarded_at_ms.is_none() && routed
                && is_deliverable(&self.fences, &row.envelope, now_ms);
            let mut id: Vec<u8> = Vec::new();
            crate::json::extend_bytes(&mut id, row.envelope.message_id.as_str().as_bytes());
            assert(id@ =~= vstd::utf8::encode_utf8(row.envelope.message_id@));
            cs.push(Candidate { at_ms: row.received_at_ms, id, sub: Vec::new(), seq: 0, eligible });
            assert(view_cands(cs@) =~= target.subrange(0, k + 1));
            k = k + 1;
        }
        assert(target.subrange(0, self.inbox@.len() as int) =~= target);
        proof {
            assert forall|i: int, j: int| 0 <= i < j < target.len() implies cand_key(#[trigger] target[i]) != cand_key(#[trigger] target[j]) by {
                let a = self@.inbox[i].envelope.message_id;
                let b = self@.inbox[j].envelope.message_id;
                vstd::utf8::encode_utf8_decode_utf8(a);
                vstd::utf8::encode_utf8_decode_utf8(b);
            }
        }
        let idx = order_candidates(&cs, limit);
        let mut out: Vec<InboxMessage> = Vec::new();
        let mut i: usize = 0;
        while i < idx.len()
            invariant
                view_cands(cs@) == target,
                target.len() == self@.inbox.len(),
                first_in_order(target, idx@, limit),
                i <= idx@.len(),
                lists_inbox(self@, idx@.subrange(0, i as int), out@),
            decreases idx@.len() - i,
        {
            let k = idx[i];
            let row = &self.inbox[k];
            assert(self@.inbox[k as int] == row@);
            out.push(InboxMessage { envelope: row.envelope.duplicate(), received_at_ms: row.received_at_ms });
            proof {
                let s2 = idx@.subrange(0, i + 1);
                assert forall|m: int| 0 <= m < out@.len() implies (#[trigger] out@[m]).envelope@ == self@.inbox[s2[m] as int].envelope
                    && out@[m].received_at_ms == self@.inbox[s2[m] as int].received_at_ms by {
                    if m < i {
                        assert(s2[m] == idx@.subrange(0, i as int)[m]);
                    }
                }
            }
            i = i + 1;
        }
        assert(idx@.subrange(0, idx@.len() as int) =~= idx@);
        assert(first_in_order(inbox_cands(self@, now_ms, rv), idx@, limit) && lists_inbox(self@, idx@, out@));
        Ok(out)
    }

    /// Unacknowledged outbox messages due by `now_ms` and still current for
    /// their device, by next eligible time then message ID, at most `limit`.
    pub fn ready_outbox(&self, now_ms: u64, limit: usize) -> (r: Result<Vec<OutboxMessage>, StorageError>)
        ensures
            r matches Ok(list) && outbox_listing(self@, now_ms, limit, list@),
    {
        proof {
            use_type_invariant(self);
        }
        let ghost target = outbox_cands(self@, now_ms);
        let mut cs: Vec<Candidate> = Vec::new();
        let mut k: usize = 0;
        while k < self.outbox.len()
            invariant
                unique_fences(view_fences(self.fences@)),
                target == outbox_cands(self@, now_ms),
                k <= self.outbox@.len(),
                target.len() == self.outbox@.len(),
                cs@.len() == k,
                view_cands(cs@) == target.subrange(0, k as int),
            decreases self.outbox@.len() - k,
        {
            let row = &self.outbox[k];
            assert(self@.outbox[k as int] == row@);
            let eligible = row.acknowledged_at_ms.is_none() && row.discarded_at_ms.is_none() && row.not_before_ms <= now_ms
                && is_deliverable(&self.fences, &row.envelope, now_ms);
            let mut id: Vec<u8> = Vec::new();
            crate::json::extend_bytes(&mut id, row.envelope.message_id.as_str().as_bytes());
            assert(id@ =~= vstd::utf8::encode_utf8(row.envelope.message_id@));
            cs.push(Candidate { at_ms: row.not_before_ms, id, sub: Vec::new(), seq: 0, eligible });
            assert(view_cands(cs@) =~= target.subrange(0, k + 1));
            k = k + 1;
        }
        assert(target.subrange(0, self.outbox@.len() as int) =~= target);
        proof {
            assert forall|i: int, j: int| 0 <= i < j < target.len() implies cand_key(#[trigger] target[i]) != cand_key(#[trigger] target[j]) by {
                let a = self@.outbox[i].envelope.message_id;
                let b = self@.outbox[j].envelope.message_id;
                vstd::utf8::encode_utf8_decode_utf8(a);
                vstd::utf8::encode_utf8_decode_utf8(b);
            }
        }
        let idx = order_candidates(&cs, limit);
        let mut out: Vec<OutboxMessage> = Vec::new();
        let mut i: usize = 0;
        while i < idx.len()
            invariant
                view_cands(cs@) == target,
                target.len() == self@.outbox.len(),
                first_in_order(target, idx@, limit),
                i <= idx@.len(),
                lists_outbox(self@, idx@.subrange(0, i as int), out@),
            decreases idx@.len() - i,
        {
            let k = idx[i];
            let row = &self.outbox[k];
            assert(self@.outbox[k as int] == row@);
            out.push(OutboxMessage { envelope: row.envelope.duplicate(), attempts: row.attempts, not_before_ms: row.not_before_ms });
            proof {
                let s2 = idx@.subrange(0, i + 1);
                assert forall|m: int| 0 <= m < out@.len() implies (#[trigger] out@[m]).envelope@ == self@.outbox[s2[m] as int].envelope
                    && out@[m].attempts == self@.outbox[s2[m] as int].attempts
                    && out@[m].not_before_ms == self@.outbox[s2[m] as int].not_before_ms by {
                    if m < i {
                        assert(s2[m] == idx@.subrange(0, i as int)[m]);
                    }
                }
            }
            i = i + 1;
        }
        assert(idx@.subrange(0, idx@.len() as int) =~= idx@);
        assert(first_in_order(outbox_cands(self@, now_ms), idx@, limit) && lists_outbox(self@, idx@, out@));
        Ok(out)
    }
}

/// The snapshot has the given ID.
pub open spec fn has_snapshot(v: StoreView, id: Seq<char>) -> bool {
    exists|k: int| 0 <= k < v.snapshots.len() && (#[trigger] v.snapshots[k]).id == id
}

/// Some snapshot or reference pins this snapshot as a baseline.
pub open spec fn pinned(v: StoreView, id: Seq<char>) -> bool {
    ||| exists|k: int| 0 <= k < v.snapshots.len() && (#[trigger] v.snapshots[k]).baseline_id == Some(id)
    ||| exists|k: int| 0 <= k < v.references.len() && (#[trigger] v.references[k]).baseline_id == id
}

/// An unpinned snapshot older than its class's retention at `now_ms`.
pub open spec fn prunable(v: StoreView, s: SnapshotView, now_ms: u64) -> bool {
    !pinned(v, s.id) && s.recorded_at_ms < sat_sub(now_ms, s.retention.retention_spec())
}

pub open spec fn kept_snapshots(v: StoreView, snaps: Seq<SnapshotView>, now_ms: u64) -> Seq<SnapshotView>
    decreases snaps.len(),
{
    if snaps.len() == 0 {
        snaps
    } else {
        let rest = kept_snapshots(v, snaps.drop_last(), now_ms);
        if prunable(v, snaps.last(), now_ms) { rest } else { rest.push(snaps.last()) }
    }
}

fn clone_bytes(b: &Vec<u8>) -> (r: Vec<u8>)
    ensures
        r@ == b@,
{
    let mut out: Vec<u8> = Vec::new();
    crate::json::extend_bytes(&mut out, b.as_slice());
    assert(out@ =~= b@);
    out
}

impl Store {
    fn find_snapshot(&self, id: &str) -> (r: Option<usize>)
        ensures
            r matches Some(k) ==> k < self@.snapshots.len() && self@.snapshots[k as int].id == id@,
            r is None ==> !has_snapshot(self@, id@),
    {
        let mut k: usize = 0;
        while k < self.snapshots.len()
            invariant
                k <= self.snapshots@.len(),
                forall|j: int| 0 <= j < k ==> (#[trigger] self@.snapshots[j]).id != id@,
            decreases self.snapshots@.len() - k,
        {
            assert(self@.snapshots[k as int] == self.snapshots@[k as int]@);
            if str_eq(self.snapshots[k].id.as_str(), id) {
                return Some(k);
            }
            k = k + 1;
        }
        None
    }

    pub fn snapshot_exists(&self, id: &str) -> (r: Result<bool, StorageError>)
        ensures
            r == Ok::<bool, StorageError>(has_snapshot(self@, id@)),
    {
        Ok(self.find_snapshot(id).is_some())
    }

    /// Records an accepted revision whose digest matches its exact source bytes.
    pub fn accept_revision(&mut self, id: &str, source_digest: &str, source: &[u8], accepted_at_ms: u64)
        -> (r: Result<(), StorageError>)
        ensures
            ({
                let v = old(self)@;
                if !identifier_ok(id@) {
                    r == Err::<(), StorageError>(StorageError::InvalidMessage("revision ID")) && final(self)@ == v
                } else if payload_digest_spec(source@) != source_digest@ {
                    r == Err::<(), StorageError>(StorageError::RevisionDigestMismatch) && final(self)@ == v
                } else if exists|k: int| 0 <= k < v.revisions.len() && (#[trigger] v.revisions[k]).id == id@ {
                    r == Err::<(), StorageError>(StorageError::Constraint("revision ID already exists")) && final(self)@ == v
                } else {
                    r is Ok && final(self)@ == StoreView {
                        revisions: v.revisions.push(
                            RevisionView { id: id@, source_digest: source_digest@, source: source@, accepted_at_ms },
                        ),
                        ..v
                    }
                }
            }),
    {
        proof {
            use_type_invariant(&*self);
        }
        let ghost v = self@;
        validate_identifier(id, "revision ID")?;
        let digest = payload_digest(source);
        if !str_eq(digest.as_str(), source_digest) {
            return Err(StorageError::RevisionDigestMismatch);
        }
        let mut k: usize = 0;
        while k < self.revisions.len()
            invariant
                v == self@,
                identifier_ok(id@),
                payload_digest_spec(source@) == source_digest@,
                k <= self.revisions@.len(),
                forall|j: int| 0 <= j < k ==> (#[trigger] v.revisions[j]).id != id@,
            decreases self.revisions@.len() - k,
        {
            assert(v.revisions[k as int] == self.revisions@[k as int]@);
            if str_eq(self.revisions[k].id.as_str(), id) {
                return Err(StorageError::Constraint("revision ID already exists"));
            }
            k = k + 1;
        }
        let mut src: Vec<u8> = Vec::new();
        crate::json::extend_bytes(&mut src, source);
        let rec = RevisionRecord {
            id: id.to_string(),
            source_digest: source_digest.to_string(),
            source: src,
            accepted_at_ms,
        };
        let mut taken = Store::new(0);
        std::mem::swap(&mut taken, self);
        let Store { inbox, outbox, fences, mut revisions, snapshots, references, max_queue } = taken;
        revisions.push(rec);
        proof {
            let w = revisions@.map_values(|r: RevisionRecord| r@);
            assert(w =~= v.revisions.push(RevisionView { id: id@, source_digest: source_digest@, source: source@, accepted_at_ms }));
        }
        *self = Store { inbox, outbox, fences, revisions, snapshots, references, max_queue };
        Ok(())
    }

    /// Stores a snapshot, linked to its baseline when one is named. An ID in
    /// use, or a baseline that is neither stored nor this snapshot, is
    /// refused and nothing is stored.
    pub fn put_snapshot(&mut self, id: &str, retention: RetentionClass, body: &[u8], recorded_at_ms: u64, baseline_id: Option<&str>)
        -> (r: Result<(), StorageError>)
        ensures
            ({
                let v = old(self)@;
                let baseline = match baseline_id {
                    Some(b) => Some(b@),
                    None => None,
                };
                if has_snapshot(v, id@) {
                    r == Err::<(), StorageError>(StorageError::Constraint("snapshot ID already exists")) && final(self)@ == v
                } else if baseline matches Some(b) && b != id@ && !has_snapshot(v, b) {
                    r == Err::<(), StorageError>(StorageError::Constraint("baseline snapshot does not exist")) && final(self)@ == v
                } else {
                    r is Ok && final(self)@ == StoreView {
                        snapshots: v.snapshots.push(
                            SnapshotView { id: id@, retention, body: body@, recorded_at_ms, baseline_id: baseline },
                        ),
                        ..v
                    }
                }
            }),
    {
        proof {
            use_type_invariant(&*self);
        }
        let ghost v = self@;
        if self.find_snapshot(id).is_some() {
            return Err(StorageError::Constraint("snapshot ID already exists"));
        }
        let baseline: Option<String> = match baseline_id {
            Some(b) => {
                if !str_eq(b, id) && self.find_snapshot(b).is_none() {
                    return Err(StorageError::Constraint("baseline snapshot does not exist"));
                }
                Some(b.to_string())
            },
            None => None,
        };
        let mut bytes: Vec<u8> = Vec::new();
        crate::json::extend_bytes(&mut bytes, body);
        let rec = SnapshotRecord { id: id.to_string(), retention, body: bytes, recorded_at_ms, baseline_id: baseline };
        let mut taken = Store::new(0);
        std::mem::swap(&mut taken, self);
        let Store { inbox, outbox, fences, revisions, mut snapshots, references, max_queue } = taken;
        snapshots.push(rec);
        proof {
            let w = snapshots@.map_values(|r: SnapshotRecord| r@);
            let b = match baseline_id {
                Some(b) => Some(b@),
                None => None,
            };
            assert(w =~= v.snapshots.push(SnapshotView { id: id@, retention, body: body@, recorded_at_ms, baseline_id: b }));
            assert forall|i: int, j: int| 0 <= i < j < w.len() implies (#[trigger] w[i]).id != (#[trigger] w[j]).id by {
                if j == w.len() - 1 {
                    assert(w[i] == v.snapshots[i]);
                }
            }
        }
        *self = Store { inbox, outbox, fences, revisions, snapshots, references, max_queue };
        Ok(())
    }

    /// Pins a baseline while a deployment or audit record depends on it.
    pub fn reference_baseline(&mut self, reference_id: &str, kind: BaselineReferenceKind, baseline_id: &str)
        -> (r: Result<(), StorageError>)
        ensures
            ({
                let v = old(self)@;
                if !identifier_ok(reference_id@) {
                    r == Err::<(), StorageError>(StorageError::InvalidMessage("baseline reference ID")) && final(self)@ == v
                } else if !identifier_ok(baseline_id@) {
                    r == Err::<(), StorageError>(StorageError::InvalidMessage("baseline ID")) && final(self)@ == v
                } else if exists|k: int| 0 <= k < v.references.len() && (#[trigger] v.references[k]).reference_id == reference_id@ {
                    r == Err::<(), StorageError>(StorageError::Constraint("baseline reference ID already exists")) && final(self)@ == v
                } else if !has_snapshot(v, baseline_id@) {
                    r == Err::<(), StorageError>(StorageError::Constraint("baseline snapshot does not exist")) && final(self)@ == v
                } else {
                    r is Ok && final(self)@ == StoreView {
                        references: v.references.push(
                            ReferenceView { reference_id: reference_id@, kind, baseline_id: baseline_id@ },
                        ),
                        ..v
                    }
                }
            }),
    {
        proof {
            use_type_invariant(&*self);
        }
        let ghost v = self@;
        validate_identifier(reference_id, "baseline reference ID")?;
        validate_identifier(baseline_id, "baseline ID")?;
        let mut k: usize = 0;
        while k < self.references.len()
            invariant
                v == self@,
                identifier_ok(reference_id@),
                identifier_ok(baseline_id@),
                k <= self.references@.len(),
                forall|j: int| 0 <= j < k ==> (#[trigger] v.references[j]).reference_id != reference_id@,
            decreases self.references@.len() - k,
        {
            assert(v.references[k as int] == self.references@[k as int]@);
            if str_eq(self.references[k].reference_id.as_str(), reference_id) {
                return Err(StorageError::Constraint("baseline reference ID already exists"));
            }
            k = k + 1;
        }
        if self.find_snapshot(baseline_id).is_none() {
            return Err(StorageError::Constraint("baseline snapshot does not exist"));
        }
        let rec = ReferenceRecord { reference_id: reference_id.to_string(), kind, baseline_id: baseline_id.to_string() };
        let mut taken = Store::new(0);
        std::mem::swap(&mut taken, self);
        let Store { inbox, outbox, fences, revisions, snapshots, mut references, max_queue } = taken;
        references.push(rec);
        proof {
            let w = references@.map_values(|r: ReferenceRecord| r@);
            assert(w =~= v.references.push(ReferenceView { reference_id: reference_id@, kind, baseline_id: baseline_id@ }));
        }
        *self = Store { inbox, outbox, fences, revisions, snapshots, references, max_queue };
        Ok(())
    }

    fn is_pinned(&self, id: &String) -> (r: bool)
        ensures
            r == pinned(self@, id@),
    {
        let mut k: usize = 0;
        while k < self.snapshots.len()
            invariant
                k <= self.snapshots@.len(),
                forall|j: int| 0 <= j < k ==> (#[trigger] self@.snapshots[j]).baseline_id != Some(id@),
            decreases self.snapshots@.len() - k,
        {
            assert(self@.snapshots[k as int] == self.snapshots@[k as int]@);
            match &self.snapshots[k].baseline_id {
                Some(b) => {
                    if *b == *id {
                        return true;
                    }
                },
                None => {},
            }
            k = k + 1;
        }
        let mut k: usize = 0;
        while k < self.references.len()
            invariant
                k <= self.references@.len(),
                forall|j: int| 0 <= j < self.snapshots@.len() ==> (#[trigger] self@.snapshots[j]).baseline_id != Some(id@),
                forall|j: int| 0 <= j < k ==> (#[trigger] self@.references[j]).baseline_id != id@,
            decreases self.references@.len() - k,
        {
            assert(self@.references[k as int] == self.references@[k as int]@);
            if self.references[k].baseline_id == *id {
                return true;
            }
            k = k + 1;
        }
        false
    }

    /// Deletes only expired snapshots that no snapshot or reference pins;
    /// audit snapshots have the longer retention. Returns how many went.
    pub fn prune(&mut self, now_ms: u64) -> (r: Result<usize, StorageError>)
        ensures
            ({
                let v = old(self)@;
                let kept = kept_snapshots(v, v.snapshots, now_ms);
                r == Ok::<usize, StorageError>((v.snapshots.len() - kept.len()) as usize)
                    && final(self)@ == StoreView { snapshots: kept, ..v }
            }),
    {
        proof {
            use_type_invariant(&*self);
        }
        let ghost v = self@;
        let mut keep: Vec<bool> = Vec::new();
        let mut k: usize = 0;
        while k < self.snapshots.len()
            invariant
                v == self@,
                k <= self.snapshots@.len(),
                keep@.len() == k,
                forall|j: int| 0 <= j < k ==> keep@[j] == !prunable(v, #[trigger] v.snapshots[j], now_ms),
            decreases self.snapshots@.len() - k,
        {
            let snap = &self.snapshots[k];
            assert(v.snapshots[k as int] == snap@);
            let cutoff = now_ms.saturating_sub(snap.retention.retention_ms());
            let gone = !self.is_pinned(&snap.id) && snap.recorded_at_ms < cutoff;
            keep.push(!gone);
            k = k + 1;
        }
        let n = self.snapshots.len();
        let mut taken = Store::new(0);
        std::mem::swap(&mut taken, self);
        let Store { inbox, outbox, fences, revisions, snapshots, references, max_queue } = taken;
        let mut kept: Vec<SnapshotRecord> = Vec::new();
        let mut removed: usize = 0;
        let mut rest = snapshots;
        let mut i: usize = 0;
        let ghost all = v.snapshots;
        while rest.len() > 0
            invariant
                all == v.snapshots,
                all.len() == n,
                keep@.len() == all.len(),
                i + rest@.len() == all.len(),
                forall|j: int| 0 <= j < all.len() ==> keep@[j] == !prunable(v, #[trigger] all[j], now_ms),
                forall|j: int| 0 <= j < rest@.len() ==> (#[trigger] rest@[j])@ == all[i + j],
                kept@.map_values(|r: SnapshotRecord| r@) == kept_snapshots(v, all.subrange(0, i as int), now_ms),
                removed == i - kept@.len(),
                kept@.len() <= i,
                forall|a: int, b: int| 0 <= a < b < kept@.len() ==> (#[trigger] kept@[a])@.id != (#[trigger] kept@[b])@.id,
                forall|a: int| 0 <= a < kept@.len() ==> exists|j: int| 0 <= j < i && (#[trigger] kept@[a])@.id == all[j].id,
                forall|a: int, b: int| 0 <= a < b < all.len() ==> (#[trigger] all[a]).id != (#[trigger] all[b]).id,
            decreases rest@.len(),
        {
            let snap = rest.remove(0);
            proof {
                assert(snap@ == all[i as int]);
                let p = all.subrange(0, i + 1);
                assert(p.drop_last() =~= all.subrange(0, i as int));
                assert(p.last() == all[i as int]);
            }
            if keep[i] {
                let ghost before = kept@;
                proof {
                    assert forall|a: int| 0 <= a < before.len() implies before[a]@.id != all[i as int].id by {
                        let j = choose|j: int| 0 <= j < i && before[a]@.id == all[j].id;
                    }
                }
                kept.push(snap);
                proof {
                    assert(kept@.map_values(|r: SnapshotRecord| r@) =~= kept_snapshots(v, all.subrange(0, i + 1), now_ms));
                    assert forall|a: int| 0 <= a < kept@.len() implies exists|j: int| 0 <= j < i + 1 && (#[trigger] kept@[a])@.id == all[j].id by {
                        if a == kept@.len() - 1 {
                            assert(kept@[a]@.id == all[i as int].id);
                        } else {
                            assert(kept@[a] == before[a]);
                            let j = choose|j: int| 0 <= j < i && before[a]@.id == all[j].id;
                        }
                    }
                }
            } else {
                removed = removed + 1;
            }
            proof {
                assert forall|j: int| 0 <= j < rest@.len() implies (#[trigger] rest@[j])@ == all[i + 1 + j] by {
                }
            }
            i = i + 1;
        }
        assert(all.subrange(0, all.len() as int) =~= all);
        *self = Store { inbox, outbox, fences, revisions, snapshots: kept, references, max_queue };
        Ok(removed)
    }
}

proof fn lemma_first_inbox_exists(rows: Seq<InboxView>, id: Seq<char>, j: int)
    requires
        0 <= j < rows.len(),
        rows[j].envelope.message_id == id,
    ensures
        exists|k: int| first_inbox(rows, id, k),
    decreases j,
{
    if exists|m: int| 0 <= m < j && (#[trigger] rows[m]).envelope.message_id == id {
        let m = choose|m: int| 0 <= m < j && (#[trigger] rows[m]).envelope.message_id == id;
        lemma_first_inbox_exists(rows, id, m);
    } else {
        assert(first_inbox(rows, id, j));
    }
}

/// Receiving an envelope and then receiving it again finds the exact replay:
/// the second receipt is a duplicate.
pub proof fn lemma_receive_replay_is_duplicate(v: StoreView, e: MessageEnvelopeView, now_ms: u64, later_ms: u64)
    requires
        receive_decision(v, e, now_ms) is Insert,
    ensures
        receive_decision(received(v, e, now_ms), e, later_ms) is Duplicate,
{
    let w = received(v, e, now_ms);
    let n = v.inbox.len() as int;
    assert(w.inbox[n].envelope == e);
    assert forall|j: int| 0 <= j < n implies (#[trigger] w.inbox[j]).envelope.message_id != e.message_id by {
        assert(w.inbox[j].envelope == v.inbox[j].envelope);
        if v.inbox[j].envelope.message_id == e.message_id {
            lemma_first_inbox_exists(v.inbox, e.message_id, j);
        }
    }
    assert(first_inbox(w.inbox, e.message_id, n));
    lemma_first_inbox_unique(w.inbox, e.message_id, n);
}

/// Recording an envelope's fence never moves a device back: every device
/// keeps a generation at least as new, and within the same generation an
/// epoch at least as new.
pub proof fn lemma_fences_never_roll_back(fs: Seq<FenceView>, e: MessageEnvelopeView, d: Seq<char>)
    requires
        unique_fences(fs),
        fence_fault(fs, e) is None,
    ensures
        fence_of(fs, d) matches Some((g, ep)) ==> (fence_of(set_fence(fs, e), d) matches Some((g2, ep2)) && (g2 > g || (g2 == g && ep2 >= ep))),
        fence_of(fs, d) is None ==> ((fence_of(set_fence(fs, e), d) is Some) <==> (d == e.device.device_id)),
{
    lemma_set_fence(fs, e, d);
}

proof fn lemma_count_inbox_push(rows: Seq<InboxView>, x: InboxView)
    ensures
        count_inbox_pending(rows.push(x)) == count_inbox_pending(rows) + if inbox_pending(x) { 1nat } else { 0nat },
{
    assert(rows.push(x).drop_last() =~= rows);
}

/// An inserted receipt leaves at most `max_queue` receipts pending.
pub proof fn lemma_received_inbox_bounded(v: StoreView, e: MessageEnvelopeView, now_ms: u64)
    requires
        receive_decision(v, e, now_ms) is Insert,
    ensures
        count_inbox_pending(received(v, e, now_ms).inbox) <= v.max_queue,
{
    let fs = set_fence(v.fences, e);
    lemma_count_inbox_push(
        retire_inbox(v.inbox, fs, now_ms),
        InboxView { envelope: e, received_at_ms: now_ms, processed_at_ms: None, discarded_at_ms: None },
    );
}

/// Retirement never erases a record: every record keeps its envelope and
/// its receipt time, and a retired one stays as a tombstone.
pub proof fn lemma_retire_keeps_records(rows: Seq<InboxView>, fs: Seq<FenceView>, now_ms: u64, k: int)
    requires
        0 <= k < rows.len(),
    ensures
        retire_inbox(rows, fs, now_ms).len() == rows.len(),
        retire_inbox(rows, fs, now_ms)[k].envelope == rows[k].envelope,
        retire_inbox(rows, fs, now_ms)[k].received_at_ms == rows[k].received_at_ms,
        retire_inbox(rows, fs, now_ms)[k].processed_at_ms == rows[k].processed_at_ms,
{
}

} // verus!

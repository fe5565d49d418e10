//! Versioned wire data shared by the runtime agents.
use vstd::prelude::*;
use vstd::string::*;

verus! {

pub const PROTOCOL_VERSION: u32 = 1;

/// SHA-256 of a byte sequence (32 bytes).
pub uninterp spec fn sha256(bytes: Seq<u8>) -> Seq<u8>;

/// `sha2::Sha256::digest`: the 32-byte SHA-256 digest of the input bytes.
#[verifier::external_body]
fn sha256_digest(bytes: &[u8]) -> (r: Vec<u8>)
    ensures
        r@ == sha256(bytes@),
        r@.len() == 32,
{
    <sha2::Sha256 as sha2::Digest>::digest(bytes).to_vec()
}

/// `String::from_utf8`: a valid UTF-8 byte vector becomes the string it encodes.
#[verifier::external_body]
fn string_from_utf8(bytes: Vec<u8>) -> (r: String)
    requires
        vstd::utf8::valid_utf8(bytes@),
    ensures
        r@ == vstd::utf8::decode_utf8(bytes@),
{
    String::from_utf8(bytes).unwrap_or_default()
}

pub open spec fn ascii_chars(bytes: Seq<u8>) -> Seq<char> {
    Seq::new(bytes.len(), |i: int| bytes[i] as char)
}

pub open spec fn all_ascii(bytes: Seq<u8>) -> bool {
    forall|i: int| 0 <= i < bytes.len() ==> bytes[i] < 128
}

/// Builds a string from ASCII bytes.
pub fn ascii_string(bytes: Vec<u8>) -> (s: String)
    requires
        all_ascii(bytes@),
    ensures
        s@ == ascii_chars(bytes@),
        vstd::utf8::encode_utf8(s@) == bytes@,
{
    broadcast use vstd::utf8::group_utf8_lib;
    let ghost chars = ascii_chars(bytes@);
    proof {
        assert(vstd::utf8::is_ascii_chars(chars)) by {
            assert forall|i: int| 0 <= i < chars.len() implies (chars[i] as nat) < 128 by {
                assert(chars[i] == bytes@[i] as char);
            }
        }
        vstd::utf8::is_ascii_chars_encode_utf8(chars);
        assert(vstd::utf8::encode_utf8(chars) =~= bytes@) by {
            assert forall|i: int| 0 <= i < bytes@.len() implies vstd::utf8::encode_utf8(chars)[i] == bytes@[i] by {
                assert(chars[i] == bytes@[i] as char);
            }
        }
        vstd::utf8::encode_utf8_valid_utf8(chars);
        vstd::utf8::encode_utf8_decode_utf8(chars);
    }
    string_from_utf8(bytes)
}

/// Builds a string from ASCII characters.
pub fn ascii_chars_string(cs: &Vec<char>) -> (s: String)
    requires
        forall|i: int| 0 <= i < cs@.len() ==> (cs@[i] as u32) < 128,
    ensures
        s@ == cs@,
{
    let mut bytes: Vec<u8> = Vec::new();
    let mut i: usize = 0;
    while i < cs.len()
        invariant
            i <= cs@.len(),
            forall|k: int| 0 <= k < cs@.len() ==> (cs@[k] as u32) < 128,
            bytes@.len() == i,
            forall|k: int| 0 <= k < i ==> (#[trigger] bytes@[k]) < 128 && (bytes@[k] as char) == cs@[k],
        decreases cs@.len() - i,
    {
        let c = cs[i];
        let u = c as u32;
        let b = u as u8;
        assert(b as u32 == u) by (bit_vector)
            requires
                u < 128,
                b == u as u8;
        proof {
            vstd::utf8::char_u32_cast(c, u);
        }
        assert((u as char) == c);
        assert((b as char) == (u as char));
        assert(b < 128);
        let ghost prev = bytes@;
        bytes.push(b);
        assert forall|k: int| 0 <= k < i + 1 implies bytes@[k] < 128 && (bytes@[k] as char) == cs@[k] by {
            if k < i {
                assert(bytes@[k] == prev[k]);
                assert(prev[k] < 128);
                assert((prev[k] as char) == cs@[k]);
            } else {
                assert(k == i);
                assert(bytes@[k] == b);
                assert(b < 128);
                assert((b as char) == cs@[k]);
            }
        }
        i = i + 1;
    }
    let ghost bv = bytes@;
    let s = ascii_string(bytes);
    assert(s@ =~= cs@) by {
        assert forall|k: int| 0 <= k < cs@.len() implies s@[k] == cs@[k] by {
            assert(ascii_chars(bv)[k] == bv[k] as char);
        }
    }
    s
}

pub proof fn lemma_encode_utf8_concat(a: Seq<char>, b: Seq<char>)
    ensures
        vstd::utf8::encode_utf8(a + b) == vstd::utf8::encode_utf8(a) + vstd::utf8::encode_utf8(b),
    decreases a.len(),
{
    if a.len() == 0 {
        assert(a + b =~= b);
    } else {
        lemma_encode_utf8_concat(a.drop_first(), b);
        assert((a + b).drop_first() =~= a.drop_first() + b);
        assert((a + b)[0] == a[0]);
    }
}

/// The concatenation of two strings.
pub fn concat_str(a: &str, b: &str) -> (r: String)
    ensures
        r@ == a@ + b@,
{
    broadcast use vstd::utf8::group_utf8_lib;
    let mut bytes: Vec<u8> = Vec::new();
    let x = a.as_bytes();
    let y = b.as_bytes();
    let mut i: usize = 0;
    while i < x.len()
        invariant
            i <= x@.len(),
            bytes@ == x@.subrange(0, i as int),
        decreases x@.len() - i,
    {
        bytes.push(x[i]);
        i = i + 1;
        assert(bytes@ =~= x@.subrange(0, i as int));
    }
    let mut j: usize = 0;
    while j < y.len()
        invariant
            j <= y@.len(),
            i == x@.len(),
            bytes@ == x@ + y@.subrange(0, j as int),
        decreases y@.len() - j,
    {
        bytes.push(y[j]);
        j = j + 1;
        assert(bytes@ =~= x@ + y@.subrange(0, j as int));
    }
    assert(x@.subrange(0, x@.len() as int) =~= x@);
    assert(y@.subrange(0, y@.len() as int) =~= y@);
    proof {
        lemma_encode_utf8_concat(a@, b@);
        vstd::utf8::encode_utf8_valid_utf8(a@ + b@);
        vstd::utf8::encode_utf8_decode_utf8(a@ + b@);
    }
    string_from_utf8(bytes)
}

pub open spec fn hex_digit(n: u8) -> u8 {
    if n < 10 { (48 + n) as u8 } else { (87 + n) as u8 }
}

/// Lowercase hexadecimal rendering, two digits per byte.
pub open spec fn hex_bytes(bytes: Seq<u8>) -> Seq<u8> {
    Seq::new(2 * bytes.len(), |i: int| if i % 2 == 0 { hex_digit(bytes[i / 2] / 16) } else { hex_digit(bytes[i / 2] % 16) })
}

pub open spec fn hex_lower(bytes: Seq<u8>) -> Seq<char> {
    ascii_chars(hex_bytes(bytes))
}

/// The hex digest of exact payload bytes. Digest the transmitted bytes;
/// JSON reserialization is not canonicalization.
pub open spec fn payload_digest_spec(bytes: Seq<u8>) -> Seq<char> {
    hex_lower(sha256(bytes))
}

pub fn hex_encode(bytes: &[u8]) -> (s: String)
    requires
        bytes@.len() < 0x4000_0000,
    ensures
        s@ == hex_lower(bytes@),
{
    let mut out: Vec<u8> = Vec::new();
    let mut i: usize = 0;
    while i < bytes.len()
        invariant
            i <= bytes@.len(),
            bytes@.len() < 0x4000_0000,
            out@ =~= hex_bytes(bytes@.subrange(0, i as int)),
        decreases bytes@.len() - i,
    {
        let b = bytes[i];
        let hi = b / 16;
        let lo = b % 16;
        let h = if hi < 10 { 48 + hi } else { 87 + hi };
        let l = if lo < 10 { 48 + lo } else { 87 + lo };
        out.push(h);
        out.push(l);
        i = i + 1;
        assert(out@ =~= hex_bytes(bytes@.subrange(0, i as int))) by {
            let t = bytes@.subrange(0, i as int);
            assert forall|k: int| 0 <= k < out@.len() implies out@[k] == hex_bytes(t)[k] by {
                if k < 2 * (i - 1) {
                    assert(bytes@.subrange(0, i - 1)[k / 2] == t[k / 2]);
                }
            }
        }
    }
    assert(bytes@.subrange(0, bytes@.len() as int) =~= bytes@);
    assert(all_ascii(out@));
    ascii_string(out)
}

/// Digest the exact transmitted bytes as lowercase SHA-256 hex.
pub fn payload_digest(bytes: &[u8]) -> (s: String)
    ensures
        s@ == payload_digest_spec(bytes@),
        s@.len() == 64,
        vstd::utf8::is_ascii_chars(s@),
{
    let d = sha256_digest(bytes);
    let s = hex_encode(d.as_slice());
    assert(vstd::utf8::is_ascii_chars(s@)) by {
        assert forall|i: int| 0 <= i < s@.len() implies '\0' <= #[trigger] s@[i] <= '\u{7f}' by {
            let h = hex_bytes(d@);
            assert(s@[i] == h[i] as char);
            assert(h[i] < 128);
        }
    }
    s
}

#[derive(Debug, Clone, Copy, PartialEq, Eq, Structural)]
pub enum AgentRole {
    Controller,
    Witness,
    Apply,
}

#[derive(Debug, Clone, PartialEq, Eq)]
pub struct SourceSpan {
    pub file: String,
    pub line: u32,
    pub column: u32,
    pub end_line: u32,
    pub end_column: u32,
}

pub struct SourceSpanView {
    pub file: Seq<char>,
    pub line: u32,
    pub column: u32,
    pub end_line: u32,
    pub end_column: u32,
}

impl View for SourceSpan {
    type V = SourceSpanView;
    open spec fn view(&self) -> SourceSpanView {
        SourceSpanView { file: self.file@, line: self.line, column: self.column, end_line: self.end_line, end_column: self.end_column }
    }
}

impl SourceSpan {
    pub fn same(&self, other: &SourceSpan) -> (r: bool)
        ensures
            r == (self@ == other@),
    {
        self.file == other.file && self.line == other.line && self.column == other.column
            && self.end_line == other.end_line && self.end_column == other.end_column
    }
}

#[derive(Debug, Clone, PartialEq, Eq)]
pub struct RevisionRef {
    pub id: String,
    pub source_digest: String,
}

pub struct RevisionRefView {
    pub id: Seq<char>,
    pub source_digest: Seq<char>,
}

impl View for RevisionRef {
    type V = RevisionRefView;
    open spec fn view(&self) -> RevisionRefView {
        RevisionRefView { id: self.id@, source_digest: self.source_digest@ }
    }
}

impl RevisionRef {
    pub fn same(&self, other: &RevisionRef) -> (r: bool)
        ensures
            r == (self@ == other@),
    {
        self.id == other.id && self.source_digest == other.source_digest
    }

    pub fn duplicate(&self) -> (r: RevisionRef)
        ensures
            r@ == self@,
    {
        RevisionRef { id: self.id.clone(), source_digest: self.source_digest.clone() }
    }
}

#[derive(Debug, Clone, PartialEq, Eq)]
pub struct DeviceBinding {
    pub device_id: String,
    pub profile_digest: String,
    pub fencing_generation: u64,
}

pub struct DeviceBindingView {
    pub device_id: Seq<char>,
    pub profile_digest: Seq<char>,
    pub fencing_generation: u64,
}

impl View for DeviceBinding {
    type V = DeviceBindingView;
    open spec fn view(&self) -> DeviceBindingView {
        DeviceBindingView {
            device_id: self.device_id@,
            profile_digest: self.profile_digest@,
            fencing_generation: self.fencing_generation,
        }
    }
}

impl DeviceBinding {
    pub fn same(&self, other: &DeviceBinding) -> (r: bool)
        ensures
            r == (self@ == other@),
    {
        self.device_id == other.device_id && self.profile_digest == other.profile_digest
            && self.fencing_generation == other.fencing_generation
    }

    pub fn duplicate(&self) -> (r: DeviceBinding)
        ensures
            r@ == self@,
    {
        DeviceBinding {
            device_id: self.device_id.clone(),
            profile_digest: self.profile_digest.clone(),
            fencing_generation: self.fencing_generation,
        }
    }
}

#[derive(Debug, Clone, PartialEq, Eq)]
pub struct MessageEnvelope {
    pub version: u32,
    pub message_id: String,
    pub sender: String,
    pub recipient: String,
    pub device: DeviceBinding,
    pub plan_epoch: u64,
    pub created_at_ms: u64,
    pub expires_at_ms: u64,
    pub payload_digest: String,
    pub payload: Vec<u8>,
}

pub struct MessageEnvelopeView {
    pub version: u32,
    pub message_id: Seq<char>,
    pub sender: Seq<char>,
    pub recipient: Seq<char>,
    pub device: DeviceBindingView,
    pub plan_epoch: u64,
    pub created_at_ms: u64,
    pub expires_at_ms: u64,
    pub payload_digest: Seq<char>,
    pub payload: Seq<u8>,
}

impl View for MessageEnvelope {
    type V = MessageEnvelopeView;
    open spec fn view(&self) -> MessageEnvelopeView {
        MessageEnvelopeView {
            version: self.version,
            message_id: self.message_id@,
            sender: self.sender@,
            recipient: self.recipient@,
            device: self.device@,
            plan_epoch: self.plan_epoch,
            created_at_ms: self.created_at_ms,
            expires_at_ms: self.expires_at_ms,
            payload_digest: self.payload_digest@,
            payload: self.payload@,
        }
    }
}

pub fn bytes_eq(a: &[u8], b: &[u8]) -> (r: bool)
    ensures
        r == (a@ == b@),
{
    if a.len() != b.len() {
        return false;
    }
    let mut i: usize = 0;
    while i < a.len()
        invariant
            a@.len() == b@.len(),
            i <= a@.len(),
            forall|j: int| 0 <= j < i ==> a@[j] == b@[j],
        decreases a@.len() - i,
    {
        if a[i] != b[i] {
            return false;
        }
        i = i + 1;
    }
    assert(a@ =~= b@);
    true
}

impl MessageEnvelope {
    pub fn duplicate(&self) -> (r: MessageEnvelope)
        ensures
            r@ == self@,
    {
        let mut payload: Vec<u8> = Vec::new();
        crate::json::extend_bytes(&mut payload, self.payload.as_slice());
        MessageEnvelope {
            version: self.version,
            message_id: self.message_id.clone(),
            sender: self.sender.clone(),
            recipient: self.recipient.clone(),
            device: self.device.duplicate(),
            plan_epoch: self.plan_epoch,
            created_at_ms: self.created_at_ms,
            expires_at_ms: self.expires_at_ms,
            payload_digest: self.payload_digest.clone(),
            payload,
        }
    }

    pub fn same(&self, other: &MessageEnvelope) -> (r: bool)
        ensures
            r == (self@ == other@),
    {
        self.version == other.version && self.message_id == other.message_id
            && self.sender == other.sender && self.recipient == other.recipient
            && self.device.same(&other.device) && self.plan_epoch == other.plan_epoch
            && self.created_at_ms == other.created_at_ms && self.expires_at_ms == other.expires_at_ms
            && self.payload_digest == other.payload_digest
            && bytes_eq(self.payload.as_slice(), other.payload.as_slice())
    }
}

} // verus!

//! Canonical agent identities (SPIFFE IDs), DSSE pre-authentication
//! encoding, and envelope signing and verification.
use crate::net::{join, lemma_split_cons, lemma_split_join, lemma_split_none, split, split_chars, view_parts};
use crate::protocol::{ascii_chars_string, payload_digest, payload_digest_spec, AgentRole};
use crate::text::{byte_len, chars_of, str_eq, str_len};
use base64::engine::general_purpose::{STANDARD, STANDARD_NO_PAD, URL_SAFE, URL_SAFE_NO_PAD};
use base64::Engine;
use ring::signature::{Ed25519KeyPair, KeyPair, UnparsedPublicKey, ED25519};
use crate::json::extend_bytes;
use vstd::prelude::*;

verus! {

pub const DSSE_PAYLOAD_TYPE: &'static str = "application/vnd.in-toto+json";

pub const MAX_PAYLOAD_BYTES: usize = 1_048_576;

#[derive(Debug, Clone, Copy, PartialEq, Eq, Structural)]
pub enum IdentityError {
    /// The identity is not a canonical Network Intent SPIFFE ID.
    InvalidIdentity,
    /// Invalid signing key or random source unavailable.
    Key,
    /// Unsupported or oversized DSSE envelope.
    Envelope,
    /// No valid signature by the required enrolled identity and role.
    Signature,
}

/// The message text of each IdentityError.
pub open spec fn identity_error_text(e: IdentityError) -> Seq<char> {
    match e {
        IdentityError::InvalidIdentity => "identity must be a canonical Network Intent SPIFFE ID"@,
        IdentityError::Key => "invalid signing key or random source unavailable"@,
        IdentityError::Envelope => "unsupported or oversized DSSE envelope"@,
        IdentityError::Signature => "no valid signature by the required enrolled identity and role"@,
    }
}

impl IdentityError {
    pub fn message(&self) -> (r: &'static str)
        ensures
            r@ == identity_error_text(*self),
    {
        match self {
            IdentityError::InvalidIdentity => "identity must be a canonical Network Intent SPIFFE ID",
            IdentityError::Key => "invalid signing key or random source unavailable",
            IdentityError::Envelope => "unsupported or oversized DSSE envelope",
            IdentityError::Signature => "no valid signature by the required enrolled identity and role",
        }
    }
}

pub open spec fn is_segment_char(c: char) -> bool {
    ('a' <= c && c <= 'z') || ('0' <= c && c <= '9') || c == '-' || c == '_'
}

/// A device or instance segment: 1 to 128 lowercase letters, digits, `-` or `_`.
pub open spec fn valid_segment_spec(s: Seq<char>) -> bool {
    &&& s.len() > 0
    &&& s.len() <= 128
    &&& forall|i: int| 0 <= i < s.len() ==> is_segment_char(#[trigger] s[i])
}

pub open spec fn is_label_char(c: char) -> bool {
    ('a' <= c && c <= 'z') || ('0' <= c && c <= '9') || c == '-'
}

/// A DNS label: 1 to 63 lowercase letters, digits or `-`, not starting or ending with `-`.
pub open spec fn valid_label(l: Seq<char>) -> bool {
    &&& l.len() > 0
    &&& l.len() <= 63
    &&& l[0] != '-'
    &&& l[l.len() - 1] != '-'
    &&& forall|i: int| 0 <= i < l.len() ==> is_label_char(#[trigger] l[i])
}

/// A trust domain: at most 253 characters of dot-separated valid labels.
pub open spec fn valid_domain_spec(d: Seq<char>) -> bool {
    &&& d.len() > 0
    &&& d.len() <= 253
    &&& forall|i: int| 0 <= i < d.len() ==> (#[trigger] d[i] == '.' || is_label_char(d[i]))
    &&& forall|i: int| 0 <= i < split(d, '.').len() ==> valid_label(#[trigger] split(d, '.')[i])
}

pub fn valid_segment(s: &str) -> (r: bool)
    ensures
        r == valid_segment_spec(s@),
{
    let cs = chars_of(s);
    segment_chars_ok(&cs)
}

fn segment_chars_ok(cs: &Vec<char>) -> (r: bool)
    ensures
        r == valid_segment_spec(cs@),
{
    if cs.len() == 0 || cs.len() > 128 {
        return false;
    }
    let mut i: usize = 0;
    while i < cs.len()
        invariant
            i <= cs@.len(),
            forall|j: int| 0 <= j < i ==> is_segment_char(#[trigger] cs@[j]),
        decreases cs@.len() - i,
    {
        let c = cs[i];
        if !(('a' <= c && c <= 'z') || ('0' <= c && c <= '9') || c == '-' || c == '_') {
            return false;
        }
        i = i + 1;
    }
    true
}

fn label_ok(l: &Vec<char>) -> (r: bool)
    ensures
        r == valid_label(l@),
{
    if l.len() == 0 || l.len() > 63 || l[0] == '-' || l[l.len() - 1] == '-' {
        return false;
    }
    let mut i: usize = 0;
    while i < l.len()
        invariant
            i <= l@.len(),
            forall|j: int| 0 <= j < i ==> is_label_char(#[trigger] l@[j]),
        decreases l@.len() - i,
    {
        let c = l[i];
        if !(('a' <= c && c <= 'z') || ('0' <= c && c <= '9') || c == '-') {
            return false;
        }
        i = i + 1;
    }
    true
}

fn domain_chars_ok(d: &Vec<char>) -> (r: bool)
    ensures
        r == valid_domain_spec(d@),
{
    if d.len() == 0 || d.len() > 253 {
        return false;
    }
    let mut k: usize = 0;
    while k < d.len()
        invariant
            k <= d@.len(),
            forall|j: int| 0 <= j < k ==> (#[trigger] d@[j] == '.' || is_label_char(d@[j])),
        decreases d@.len() - k,
    {
        let c = d[k];
        if !(c == '.' || ('a' <= c && c <= 'z') || ('0' <= c && c <= '9') || c == '-') {
            return false;
        }
        k = k + 1;
    }
    let labels = split_chars(d, '.');
    let mut i: usize = 0;
    while i < labels.len()
        invariant
            view_parts(labels@) == split(d@, '.'),
            forall|j: int| 0 <= j < d@.len() ==> (#[trigger] d@[j] == '.' || is_label_char(d@[j])),
            d@.len() > 0 && d@.len() <= 253,
            i <= labels@.len(),
            forall|j: int| 0 <= j < i ==> valid_label(#[trigger] split(d@, '.')[j]),
        decreases labels@.len() - i,
    {
        assert(split(d@, '.')[i as int] == labels@[i as int]@);
        if !label_ok(&labels[i]) {
            return false;
        }
        i = i + 1;
    }
    true
}

pub fn valid_domain(domain: &str) -> (r: bool)
    ensures
        r == valid_domain_spec(domain@),
{
    let d = chars_of(domain);
    domain_chars_ok(&d)
}

pub open spec fn spiffe_prefix() -> Seq<char> {
    seq!['s', 'p', 'i', 'f', 'f', 'e', ':', '/', '/']
}

pub open spec fn agent_word() -> Seq<char> {
    seq!['a', 'g', 'e', 'n', 't']
}

pub open spec fn role_name(r: AgentRole) -> Seq<char> {
    match r {
        AgentRole::Controller => seq!['c', 'o', 'n', 't', 'r', 'o', 'l', 'l', 'e', 'r'],
        AgentRole::Witness => seq!['w', 'i', 't', 'n', 'e', 's', 's'],
        AgentRole::Apply => seq!['a', 'p', 'p', 'l', 'y'],
    }
}

pub open spec fn role_of(s: Seq<char>) -> Option<AgentRole> {
    if s == role_name(AgentRole::Controller) {
        Some(AgentRole::Controller)
    } else if s == role_name(AgentRole::Witness) {
        Some(AgentRole::Witness)
    } else if s == role_name(AgentRole::Apply) {
        Some(AgentRole::Apply)
    } else {
        None
    }
}

pub struct AgentIdentityView {
    pub trust_domain: Seq<char>,
    pub role: AgentRole,
    pub device: Seq<char>,
    pub instance: Seq<char>,
}

pub open spec fn identity_valid(v: AgentIdentityView) -> bool {
    valid_domain_spec(v.trust_domain) && valid_segment_spec(v.device) && valid_segment_spec(v.instance)
}

/// `spiffe://<domain>/agent/<role>/<device>/<instance>`, at most 2048 bytes,
/// with a valid domain and segments and a known role.
pub open spec fn parse_identity_spec(id: Seq<char>) -> Option<AgentIdentityView> {
    if byte_len(id) > 2048 || id.len() < 9 || id.subrange(0, 9) != spiffe_prefix() {
        None
    } else {
        let parts = split(id.subrange(9, id.len() as int), '/');
        if parts.len() == 5 && parts[1] == agent_word() && valid_domain_spec(parts[0])
            && valid_segment_spec(parts[3]) && valid_segment_spec(parts[4]) && role_of(parts[2]) is Some {
            Some(AgentIdentityView { trust_domain: parts[0], role: role_of(parts[2])->0, device: parts[3], instance: parts[4] })
        } else {
            None
        }
    }
}

/// The canonical text of an identity.
pub open spec fn identity_text(v: AgentIdentityView) -> Seq<char> {
    spiffe_prefix() + v.trust_domain + seq!['/'] + agent_word() + seq!['/'] + role_name(v.role) + seq!['/']
        + v.device + seq!['/'] + v.instance
}

#[derive(Debug, PartialEq, Eq)]
pub struct AgentIdentity {
    trust_domain: String,
    role: AgentRole,
    device: String,
    instance: String,
}

impl View for AgentIdentity {
    type V = AgentIdentityView;
    closed spec fn view(&self) -> AgentIdentityView {
        AgentIdentityView {
            trust_domain: self.trust_domain@,
            role: self.role,
            device: self.device@,
            instance: self.instance@,
        }
    }
}

fn chars_match(v: &Vec<char>, w: &[char]) -> (r: bool)
    ensures
        r == (v@ == w@),
{
    if v.len() != w.len() {
        return false;
    }
    let mut i: usize = 0;
    while i < v.len()
        invariant
            v@.len() == w@.len(),
            i <= v@.len(),
            forall|j: int| 0 <= j < i ==> v@[j] == w@[j],
        decreases v@.len() - i,
    {
        if v[i] != w[i] {
            return false;
        }
        i = i + 1;
    }
    assert(v@ =~= w@);
    true
}

fn role_from_chars(v: &Vec<char>) -> (r: Option<AgentRole>)
    ensures
        r == role_of(v@),
{
    let controller = ['c', 'o', 'n', 't', 'r', 'o', 'l', 'l', 'e', 'r'];
    let witness = ['w', 'i', 't', 'n', 'e', 's', 's'];
    let apply = ['a', 'p', 'p', 'l', 'y'];
    assert(controller@ =~= role_name(AgentRole::Controller));
    assert(witness@ =~= role_name(AgentRole::Witness));
    assert(apply@ =~= role_name(AgentRole::Apply));
    if chars_match(v, &controller) {
        Some(AgentRole::Controller)
    } else if chars_match(v, &witness) {
        Some(AgentRole::Witness)
    } else if chars_match(v, &apply) {
        Some(AgentRole::Apply)
    } else {
        None
    }
}

fn sub_chars(v: &Vec<char>, from: usize) -> (r: Vec<char>)
    requires
        from <= v@.len(),
    ensures
        r@ == v@.subrange(from as int, v@.len() as int),
{
    let mut r: Vec<char> = Vec::new();
    let mut i: usize = from;
    while i < v.len()
        invariant
            from <= i <= v@.len(),
            r@ == v@.subrange(from as int, i as int),
        decreases v@.len() - i,
    {
        r.push(v[i]);
        i = i + 1;
        assert(r@ =~= v@.subrange(from as int, i as int));
    }
    r
}

proof fn lemma_domain_ascii(d: Seq<char>)
    requires
        valid_domain_spec(d),
    ensures
        forall|i: int| 0 <= i < d.len() ==> (#[trigger] d[i] as u32) < 128,
{
    assert forall|i: int| 0 <= i < d.len() implies (#[trigger] d[i] as u32) < 128 by {
        assert(d[i] == '.' || is_label_char(d[i]));
    }
}

proof fn lemma_segment_ascii(s: Seq<char>)
    requires
        valid_segment_spec(s),
    ensures
        forall|i: int| 0 <= i < s.len() ==> (#[trigger] s[i] as u32) < 128,
{
    assert forall|i: int| 0 <= i < s.len() implies (#[trigger] s[i] as u32) < 128 by {
        assert(is_segment_char(s[i]));
    }
}

impl Clone for AgentIdentity {
    fn clone(&self) -> (r: Self)
        ensures
            r@ == self@,
    {
        proof {
            use_type_invariant(self);
        }
        AgentIdentity {
            trust_domain: self.trust_domain.clone(),
            role: self.role,
            device: self.device.clone(),
            instance: self.instance.clone(),
        }
    }
}

impl AgentIdentity {
    #[verifier::type_invariant]
    spec fn well_formed(self) -> bool {
        identity_valid(self@)
    }

    /// Parses a canonical identity; anything else is `InvalidIdentity`.
    pub fn parse(id: &str) -> (r: Result<AgentIdentity, IdentityError>)
        ensures
            match r {
                Ok(a) => parse_identity_spec(id@) == Some(a@),
                Err(e) => e == IdentityError::InvalidIdentity && parse_identity_spec(id@) is None,
            },
    {
        if id.as_bytes().len() > 2048 {
            return Err(IdentityError::InvalidIdentity);
        }
        let cs = chars_of(id);
        let prefix = ['s', 'p', 'i', 'f', 'f', 'e', ':', '/', '/'];
        assert(prefix@ =~= spiffe_prefix());
        if cs.len() < 9 {
            return Err(IdentityError::InvalidIdentity);
        }
        let head = {
            let mut h: Vec<char> = Vec::new();
            let mut i: usize = 0;
            while i < 9
                invariant
                    cs@.len() >= 9,
                    i <= 9,
                    h@ == cs@.subrange(0, i as int),
                decreases 9 - i,
            {
                h.push(cs[i]);
                i = i + 1;
                assert(h@ =~= cs@.subrange(0, i as int));
            }
            h
        };
        if !chars_match(&head, &prefix) {
            return Err(IdentityError::InvalidIdentity);
        }
        let rest = sub_chars(&cs, 9);
        let parts = split_chars(&rest, '/');
        let agent = ['a', 'g', 'e', 'n', 't'];
        assert(agent@ =~= agent_word());
        if parts.len() != 5 {
            return Err(IdentityError::InvalidIdentity);
        }
        assert(view_parts(parts@)[0] == parts@[0]@ && view_parts(parts@)[1] == parts@[1]@
            && view_parts(parts@)[2] == parts@[2]@ && view_parts(parts@)[3] == parts@[3]@
            && view_parts(parts@)[4] == parts@[4]@);
        if !chars_match(&parts[1], &agent) || !domain_chars_ok(&parts[0]) || !segment_chars_ok(&parts[3])
            || !segment_chars_ok(&parts[4]) {
            return Err(IdentityError::InvalidIdentity);
        }
        let role = match role_from_chars(&parts[2]) {
            Some(r) => r,
            None => {
                return Err(IdentityError::InvalidIdentity);
            },
        };
        proof {
            lemma_domain_ascii(parts@[0]@);
            lemma_segment_ascii(parts@[3]@);
            lemma_segment_ascii(parts@[4]@);
        }
        let trust_domain = ascii_chars_string(&parts[0]);
        let device = ascii_chars_string(&parts[3]);
        let instance = ascii_chars_string(&parts[4]);
        Ok(AgentIdentity { trust_domain, role, device, instance })
    }

    pub fn role(&self) -> (r: AgentRole)
        ensures
            r == self@.role,
    {
        self.role
    }

    pub fn device(&self) -> (r: &str)
        ensures
            r@ == self@.device,
    {
        self.device.as_str()
    }

    pub fn trust_domain(&self) -> (r: &str)
        ensures
            r@ == self@.trust_domain,
    {
        self.trust_domain.as_str()
    }

    /// The canonical text form, which parses back to the same identity.
    pub fn to_string(&self) -> (r: String)
        ensures
            r@ == identity_text(self@),
    {
        proof {
            use_type_invariant(self);
            lemma_domain_ascii(self@.trust_domain);
            lemma_segment_ascii(self@.device);
            lemma_segment_ascii(self@.instance);
        }
        let ghost target = identity_text(self@);
        let mut out: Vec<char> = Vec::new();
        push_chars(&mut out, &['s', 'p', 'i', 'f', 'f', 'e', ':', '/', '/']);
        push_chars(&mut out, chars_of(self.trust_domain.as_str()).as_slice());
        push_chars(&mut out, &['/', 'a', 'g', 'e', 'n', 't', '/']);
        match self.role {
            AgentRole::Controller => push_chars(&mut out, &['c', 'o', 'n', 't', 'r', 'o', 'l', 'l', 'e', 'r']),
            AgentRole::Witness => push_chars(&mut out, &['w', 'i', 't', 'n', 'e', 's', 's']),
            AgentRole::Apply => push_chars(&mut out, &['a', 'p', 'p', 'l', 'y']),
        }
        push_chars(&mut out, &['/']);
        push_chars(&mut out, chars_of(self.device.as_str()).as_slice());
        push_chars(&mut out, &['/']);
        push_chars(&mut out, chars_of(self.instance.as_str()).as_slice());
        assert(out@ =~= target);
        proof {
            assert forall|i: int| 0 <= i < out@.len() implies (#[trigger] out@[i] as u32) < 128 by {
                let d = self@.trust_domain.len() as int;
                let r = role_name(self@.role).len() as int;
                let v = self@.device.len() as int;
                if i < 9 {
                } else if i < 9 + d {
                    assert(out@[i] == self@.trust_domain[i - 9]);
                } else if i < 9 + d + 7 {
                } else if i < 9 + d + 7 + r {
                } else if i < 9 + d + 8 + r {
                } else if i < 9 + d + 8 + r + v {
                    assert(out@[i] == self@.device[i - (9 + d + 8 + r)]);
                } else if i < 9 + d + 9 + r + v {
                } else {
                    assert(out@[i] == self@.instance[i - (9 + d + 9 + r + v)]);
                }
            }
        }
        ascii_chars_string(&out)
    }
}

fn push_chars(out: &mut Vec<char>, w: &[char])
    ensures
        final(out)@ == old(out)@ + w@,
{
    let mut i: usize = 0;
    let ghost start = out@;
    while i < w.len()
        invariant
            i <= w@.len(),
            out@ == start + w@.subrange(0, i as int),
        decreases w@.len() - i,
    {
        out.push(w[i]);
        i = i + 1;
        assert(out@ =~= start + w@.subrange(0, i as int));
    }
    assert(w@.subrange(0, w@.len() as int) =~= w@);
}

proof fn lemma_no_slash_domain(d: Seq<char>)
    requires
        valid_domain_spec(d),
    ensures
        forall|i: int| 0 <= i < d.len() ==> d[i] != '/',
{
    assert forall|i: int| 0 <= i < d.len() implies d[i] != '/' by {
        assert(d[i] == '.' || is_label_char(d[i]));
    }
}

proof fn lemma_no_slash_segment(s: Seq<char>)
    requires
        valid_segment_spec(s),
    ensures
        forall|i: int| 0 <= i < s.len() ==> s[i] != '/',
{
    assert forall|i: int| 0 <= i < s.len() implies s[i] != '/' by {
        assert(is_segment_char(s[i]));
    }
}

proof fn lemma_text_bytes(v: AgentIdentityView)
    requires
        identity_valid(v),
    ensures
        byte_len(identity_text(v)) <= 2048,
{
    let text = identity_text(v);
    let role = role_name(v.role);
    lemma_domain_ascii(v.trust_domain);
    lemma_segment_ascii(v.device);
    lemma_segment_ascii(v.instance);
    assert(vstd::utf8::is_ascii_chars(text)) by {
        assert forall|i: int| 0 <= i < text.len() implies '\0' <= #[trigger] text[i] <= '\u{7f}' by {
            let d = v.trust_domain.len() as int;
            let r = role.len() as int;
            let w = v.device.len() as int;
            if 9 <= i < 9 + d {
                assert(text[i] == v.trust_domain[i - 9]);
            } else if 9 + d + 8 + r <= i < 9 + d + 8 + r + w {
                assert(text[i] == v.device[i - (9 + d + 8 + r)]);
            } else if 9 + d + 9 + r + w <= i {
                assert(text[i] == v.instance[i - (9 + d + 9 + r + w)]);
            }
        }
    }
    vstd::utf8::is_ascii_chars_encode_utf8(text);
}

proof fn lemma_text_parts(v: AgentIdentityView)
    requires
        identity_valid(v),
    ensures
        identity_text(v).subrange(0, 9) == spiffe_prefix(),
        split(identity_text(v).subrange(9, identity_text(v).len() as int), '/')
            == seq![v.trust_domain, agent_word(), role_name(v.role), v.device, v.instance],
{
    let text = identity_text(v);
    let role = role_name(v.role);
    lemma_no_slash_domain(v.trust_domain);
    lemma_no_slash_segment(v.device);
    lemma_no_slash_segment(v.instance);
    assert(text.subrange(0, 9) =~= spiffe_prefix());
    let t4 = v.device + seq!['/'] + v.instance;
    let t3 = role + seq!['/'] + t4;
    let t2 = agent_word() + seq!['/'] + t3;
    let t1 = v.trust_domain + seq!['/'] + t2;
    assert(text.subrange(9, text.len() as int) =~= t1);
    lemma_split_none(v.instance, '/');
    lemma_split_cons(v.device, v.instance, '/');
    lemma_split_cons(role, t4, '/');
    lemma_split_cons(agent_word(), t3, '/');
    lemma_split_cons(v.trust_domain, t2, '/');
    assert(split(t1, '/') =~= seq![v.trust_domain, agent_word(), role, v.device, v.instance]);
}

/// Law: the canonical text of a valid identity parses back to that identity.
pub proof fn lemma_text_parses_back(v: AgentIdentityView)
    requires
        identity_valid(v),
    ensures
        parse_identity_spec(identity_text(v)) == Some(v),
{
    lemma_text_bytes(v);
    lemma_text_parts(v);
    assert(role_of(role_name(v.role)) == Some(v.role));
}

/// Law: an accepted identity is already in canonical form; printing it gives
/// back the exact input.
pub proof fn lemma_parse_is_canonical(id: Seq<char>)
    requires
        parse_identity_spec(id) is Some,
    ensures
        identity_text(parse_identity_spec(id)->0) == id,
{
    let t = id.subrange(9, id.len() as int);
    let parts = split(t, '/');
    let v = parse_identity_spec(id)->0;
    lemma_split_join(t, '/');
    assert(role_name(v.role) == parts[2]);
    assert(parts.drop_first().drop_first().drop_first().drop_first().len() == 1);
    assert(join(parts, '/') =~= parts[0] + seq!['/'] + parts[1] + seq!['/'] + parts[2] + seq!['/'] + parts[3]
        + seq!['/'] + parts[4]) by {
        let p1 = parts.drop_first();
        let p2 = p1.drop_first();
        let p3 = p2.drop_first();
        let p4 = p3.drop_first();
        assert(join(p4, '/') == parts[4]);
        assert(join(p3, '/') == parts[3] + seq!['/'] + join(p4, '/'));
        assert(join(p2, '/') == parts[2] + seq!['/'] + join(p3, '/'));
        assert(join(p1, '/') == parts[1] + seq!['/'] + join(p2, '/'));
    }
    assert(id =~= id.subrange(0, 9) + t);
    assert(identity_text(v) =~= id);
}

impl AgentIdentity {
    /// Whether two identities are the same agent.
    pub fn same(&self, other: &AgentIdentity) -> (r: bool)
        ensures
            r == (self@ == other@),
    {
        self.trust_domain == other.trust_domain && self.role == other.role && self.device == other.device
            && self.instance == other.instance
    }
}

/// The four base64 alphabets an envelope field may use.
#[derive(Debug, Clone, Copy, PartialEq, Eq, Structural)]
pub enum Base64Alphabet {
    Standard,
    StandardNoPad,
    UrlSafe,
    UrlSafeNoPad,
}

/// What the `base64` crate's engine for `alphabet` decodes `text` to, if it accepts it.
pub uninterp spec fn base64_decoded(alphabet: Base64Alphabet, text: Seq<char>) -> Option<Seq<u8>>;

/// What the `base64` crate's padded standard engine encodes `bytes` as.
pub uninterp spec fn base64_encoded(bytes: Seq<u8>) -> Seq<char>;

/// The Ed25519 public key of a PKCS#8 v2 document, if `ring` accepts the document.
pub uninterp spec fn ed25519_public_key(pkcs8: Seq<u8>) -> Option<Seq<u8>>;

/// The deterministic Ed25519 signature of `msg` by the key in `pkcs8`.
pub uninterp spec fn ed25519_signature(pkcs8: Seq<u8>, msg: Seq<u8>) -> Seq<u8>;

/// Whether `ring` accepts `sig` as an Ed25519 signature of `msg` under `public_key`.
pub uninterp spec fn ed25519_verifies(public_key: Seq<u8>, msg: Seq<u8>, sig: Seq<u8>) -> bool;

/// Calls `Engine::decode` of the `base64` crate on the engine for `alphabet`
/// (`STANDARD`, `STANDARD_NO_PAD`, `URL_SAFE` or `URL_SAFE_NO_PAD`). The
/// contract only names the result: decoding is a function of alphabet and text.
#[verifier::external_body]
fn base64_decode(alphabet: Base64Alphabet, text: &str) -> (r: Option<Vec<u8>>)
    ensures
        match r {
            Some(b) => base64_decoded(alphabet, text@) == Some(b@),
            None => base64_decoded(alphabet, text@) is None,
        },
{
    let decoded = match alphabet {
        Base64Alphabet::Standard => STANDARD.decode(text),
        Base64Alphabet::StandardNoPad => STANDARD_NO_PAD.decode(text),
        Base64Alphabet::UrlSafe => URL_SAFE.decode(text),
        Base64Alphabet::UrlSafeNoPad => URL_SAFE_NO_PAD.decode(text),
    };
    decoded.ok()
}

/// Calls `Engine::encode` of the `base64` crate's padded `STANDARD` engine.
/// The contract claims what the crate documents: the output is padded
/// standard base64 (ASCII, four characters per started group of three
/// bytes), and the same engine decodes it back to the input.
#[verifier::external_body]
fn base64_encode(bytes: &[u8]) -> (r: String)
    requires
        bytes@.len() <= 0x1000_0000,
    ensures
        r@ == base64_encoded(bytes@),
        r@.len() == 4 * ((bytes@.len() + 2) / 3),
        forall|i: int| 0 <= i < r@.len() ==> '\0' <= #[trigger] r@[i] <= '\u{7f}',
        base64_decoded(Base64Alphabet::Standard, r@) == Some(bytes@),
{
    STANDARD.encode(bytes)
}

/// Calls `Ed25519KeyPair::from_pkcs8` of `ring` and, when the document is
/// accepted, `public_key` of the resulting pair. The contract names the result.
#[verifier::external_body]
fn ed25519_public_key_of(pkcs8: &[u8]) -> (r: Option<Vec<u8>>)
    ensures
        match r {
            Some(pk) => ed25519_public_key(pkcs8@) == Some(pk@),
            None => ed25519_public_key(pkcs8@) is None,
        },
{
    Ed25519KeyPair::from_pkcs8(pkcs8).ok().map(|pair| pair.public_key().as_ref().to_vec())
}

/// Calls `Ed25519KeyPair::generate_pkcs8` of `ring` with its system random
/// source. The contract claims only what `ring` documents: a generated
/// document is one that `from_pkcs8` accepts. Which key comes out is chance.
#[verifier::external_body]
fn ed25519_generate() -> (r: Option<Vec<u8>>)
    ensures
        r matches Some(d) ==> ed25519_public_key(d@) is Some,
{
    Ed25519KeyPair::generate_pkcs8(&ring::rand::SystemRandom::new()).ok().map(|d| d.as_ref().to_vec())
}

/// Calls `Ed25519KeyPair::sign` of `ring` on the pair parsed from `pkcs8`.
/// The contract names the (deterministic) signature and claims what `ring`
/// documents: an Ed25519 signature is 64 bytes and verifies under the pair's
/// public key.
#[verifier::external_body]
fn ed25519_sign(pkcs8: &[u8], msg: &[u8]) -> (r: Vec<u8>)
    requires
        ed25519_public_key(pkcs8@) is Some,
    ensures
        r@ == ed25519_signature(pkcs8@, msg@),
        r@.len() == 64,
        ed25519_verifies(ed25519_public_key(pkcs8@)->0, msg@, r@),
{
    match Ed25519KeyPair::from_pkcs8(pkcs8) {
        Ok(pair) => pair.sign(msg).as_ref().to_vec(),
        Err(_) => Vec::new(),
    }
}

/// Calls `UnparsedPublicKey::verify` of `ring` with the `ED25519` algorithm.
/// The contract names the verdict.
#[verifier::external_body]
fn ed25519_verify(public_key: &[u8], msg: &[u8], sig: &[u8]) -> (r: bool)
    ensures
        r == ed25519_verifies(public_key@, msg@, sig@),
{
    UnparsedPublicKey::new(&ED25519, public_key).verify(msg, sig).is_ok()
}

/// Decimal ASCII digits of `n`.
pub open spec fn decimal(n: nat) -> Seq<u8>
    decreases n,
{
    if n < 10 {
        seq![(48 + n) as u8]
    } else {
        decimal(n / 10) + seq![(48 + n % 10) as u8]
    }
}

/// Decimal digits are ASCII digits; a number of two or more digits has at
/// least two of them.
pub proof fn lemma_decimal_digits(n: nat)
    ensures
        decimal(n).len() >= 1,
        n >= 10 ==> decimal(n).len() >= 2,
        forall|i: int| 0 <= i < decimal(n).len() ==> 48 <= #[trigger] decimal(n)[i] <= 57,
    decreases n,
{
    if n >= 10 {
        lemma_decimal_digits(n / 10);
        let d = decimal(n / 10);
        assert forall|i: int| 0 <= i < decimal(n).len() implies 48 <= #[trigger] decimal(n)[i] <= 57 by {
            if i < d.len() {
                assert(decimal(n)[i] == d[i]);
            }
        }
    }
}

/// Law: the decimal rendering of a count determines the count.
pub proof fn lemma_decimal_injective(a: nat, b: nat)
    requires
        decimal(a) == decimal(b),
    ensures
        a == b,
    decreases a,
{
    lemma_decimal_digits(a);
    lemma_decimal_digits(b);
    if a >= 10 && b >= 10 {
        let da = decimal(a / 10);
        let db = decimal(b / 10);
        assert(decimal(a).last() == decimal(b).last());
        assert(decimal(a).last() == (48 + a % 10) as u8);
        assert(decimal(b).last() == (48 + b % 10) as u8);
        assert(a % 10 == b % 10);
        assert(decimal(a).drop_last() =~= da);
        assert(decimal(b).drop_last() =~= db);
        lemma_decimal_injective(a / 10, b / 10);
        assert(a == 10 * (a / 10) + a % 10);
        assert(b == 10 * (b / 10) + b % 10);
    } else if a < 10 && b < 10 {
        assert(decimal(a)[0] == decimal(b)[0]);
        assert(decimal(a)[0] == (48 + a) as u8);
        assert(decimal(b)[0] == (48 + b) as u8);
    } else if a < 10 {
        assert(decimal(a).len() == 1);
    } else {
        assert(decimal(b).len() == 1);
    }
}

/// A decimal count followed by a space is read back unambiguously.
pub proof fn lemma_decimal_then_space(a: nat, b: nat, x: Seq<u8>, y: Seq<u8>)
    requires
        decimal(a) + seq![32u8] + x == decimal(b) + seq![32u8] + y,
    ensures
        a == b,
        x == y,
{
    let s = decimal(a) + seq![32u8] + x;
    let la = decimal(a).len() as int;
    let lb = decimal(b).len() as int;
    lemma_decimal_digits(a);
    lemma_decimal_digits(b);
    if la < lb {
        assert(s[la] == 32u8);
        assert((decimal(b) + seq![32u8] + y)[la] == decimal(b)[la]);
    } else if lb < la {
        assert((decimal(b) + seq![32u8] + y)[lb] == 32u8);
        assert(s[lb] == decimal(a)[lb]);
    }
    assert(s.subrange(0, la) =~= decimal(a));
    assert((decimal(b) + seq![32u8] + y).subrange(0, lb) =~= decimal(b));
    lemma_decimal_injective(a, b);
    assert(s.subrange(la + 1, s.len() as int) =~= x);
    assert((decimal(b) + seq![32u8] + y).subrange(lb + 1, s.len() as int) =~= y);
}

pub fn decimal_bytes(n: usize) -> (r: Vec<u8>)
    ensures
        r@ == decimal(n as nat),
    decreases n,
{
    if n < 10 {
        let mut v: Vec<u8> = Vec::new();
        v.push((48 + n) as u8);
        assert(v@ =~= decimal(n as nat));
        v
    } else {
        let mut v = decimal_bytes(n / 10);
        v.push((48 + n % 10) as u8);
        assert(v@ =~= decimal(n as nat));
        v
    }
}

pub open spec fn dsse_tag() -> Seq<u8> {
    seq![68u8, 83u8, 83u8, 69u8, 118u8, 49u8, 32u8]
}

/// DSSE v1 pre-authentication encoding: `DSSEv1 <len> <type> <len> <payload>`,
/// with lengths as decimal byte counts.
pub open spec fn pae_spec(payload_type: Seq<u8>, payload: Seq<u8>) -> Seq<u8> {
    dsse_tag() + decimal(payload_type.len()) + seq![32u8] + payload_type + seq![32u8] + decimal(payload.len())
        + seq![32u8] + payload
}

proof fn lemma_split_equal(a: Seq<u8>, x: Seq<u8>, b: Seq<u8>, y: Seq<u8>)
    requires
        a + x == b + y,
        a.len() == b.len(),
    ensures
        a == b,
        x == y,
{
    assert((a + x).subrange(0, a.len() as int) =~= a);
    assert((b + y).subrange(0, b.len() as int) =~= b);
    assert((a + x).subrange(a.len() as int, (a + x).len() as int) =~= x);
    assert((b + y).subrange(b.len() as int, (b + y).len() as int) =~= y);
}

proof fn lemma_pae_shape(t: Seq<u8>, p: Seq<u8>)
    ensures
        pae_spec(t, p) == dsse_tag() + (decimal(t.len()) + seq![32u8] + (t + (seq![32u8] + (decimal(p.len()) + seq![32u8] + p)))),
{
    assert(pae_spec(t, p) =~= dsse_tag() + (decimal(t.len()) + seq![32u8] + (t + (seq![32u8] + (decimal(p.len()) + seq![32u8] + p)))));
}

/// Law: the pre-authentication encoding is injective: it determines both
/// the payload type and the payload.
pub proof fn lemma_pae_injective(t1: Seq<u8>, p1: Seq<u8>, t2: Seq<u8>, p2: Seq<u8>)
    requires
        pae_spec(t1, p1) == pae_spec(t2, p2),
    ensures
        t1 == t2,
        p1 == p2,
{
    let q1 = decimal(p1.len()) + seq![32u8] + p1;
    let q2 = decimal(p2.len()) + seq![32u8] + p2;
    let r1 = t1 + (seq![32u8] + q1);
    let r2 = t2 + (seq![32u8] + q2);
    lemma_pae_shape(t1, p1);
    lemma_pae_shape(t2, p2);
    lemma_split_equal(dsse_tag(), decimal(t1.len()) + seq![32u8] + r1, dsse_tag(), decimal(t2.len()) + seq![32u8] + r2);
    lemma_decimal_then_space(t1.len(), t2.len(), r1, r2);
    lemma_split_equal(t1, seq![32u8] + q1, t2, seq![32u8] + q2);
    lemma_split_equal(seq![32u8], q1, seq![32u8], q2);
    lemma_decimal_then_space(p1.len(), p2.len(), p1, p2);
}

/// DSSE v1 PAE: lengths are decimal UTF-8 byte lengths, not character counts.
pub fn pae(payload_type: &[u8], payload: &[u8]) -> (r: Vec<u8>)
    ensures
        r@ == pae_spec(payload_type@, payload@),
{
    let mut bytes: Vec<u8> = Vec::new();
    extend_bytes(&mut bytes, &[68u8, 83u8, 83u8, 69u8, 118u8, 49u8, 32u8]);
    let d1 = decimal_bytes(payload_type.len());
    extend_bytes(&mut bytes, d1.as_slice());
    extend_bytes(&mut bytes, &[32u8]);
    extend_bytes(&mut bytes, payload_type);
    extend_bytes(&mut bytes, &[32u8]);
    let d2 = decimal_bytes(payload.len());
    extend_bytes(&mut bytes, d2.as_slice());
    extend_bytes(&mut bytes, &[32u8]);
    extend_bytes(&mut bytes, payload);
    assert(bytes@ =~= pae_spec(payload_type@, payload@));
    bytes
}

#[derive(Debug, Clone, PartialEq, Eq)]
pub struct DsseEnvelope {
    pub payload_type: String,
    pub payload: String,
    pub signatures: Vec<DsseSignature>,
}

#[derive(Debug, Clone, PartialEq, Eq)]
pub struct DsseSignature {
    pub keyid: String,
    pub sig: String,
}

impl DsseSignature {
    pub fn duplicate(&self) -> (r: DsseSignature)
        ensures
            r.keyid@ == self.keyid@,
            r.sig@ == self.sig@,
    {
        DsseSignature { keyid: self.keyid.clone(), sig: self.sig.clone() }
    }
}

/// Two envelopes carry the same payload type, payload and signatures.
pub open spec fn same_envelope(a: DsseEnvelope, b: DsseEnvelope) -> bool {
    &&& a.payload_type@ == b.payload_type@
    &&& a.payload@ == b.payload@
    &&& a.signatures@.len() == b.signatures@.len()
    &&& forall|i: int| 0 <= i < a.signatures@.len() ==> (#[trigger] a.signatures@[i]).keyid@ == b.signatures@[i].keyid@
        && a.signatures@[i].sig@ == b.signatures@[i].sig@
}

impl DsseEnvelope {
    /// A copy with the same payload type, payload and signatures.
    pub fn duplicate(&self) -> (r: DsseEnvelope)
        ensures
            same_envelope(r, *self),
    {
        let mut signatures: Vec<DsseSignature> = Vec::new();
        let mut i: usize = 0;
        while i < self.signatures.len()
            invariant
                i <= self.signatures@.len(),
                signatures@.len() == i,
                forall|j: int| 0 <= j < i ==> (#[trigger] signatures@[j]).keyid@ == self.signatures@[j].keyid@
                    && signatures@[j].sig@ == self.signatures@[j].sig@,
            decreases self.signatures@.len() - i,
        {
            signatures.push(self.signatures[i].duplicate());
            i = i + 1;
        }
        DsseEnvelope { payload_type: self.payload_type.clone(), payload: self.payload.clone(), signatures }
    }
}

/// A controller-owned enrollment record. Revocation and validity are checked
/// on every use.
#[derive(Clone)]
pub struct TrustedKey {
    pub identity: AgentIdentity,
    pub public_key: Vec<u8>,
    pub not_before_ms: u64,
    pub not_after_ms: u64,
    pub revoked: bool,
}

/// The first alphabet, in the order standard, standard unpadded, URL-safe,
/// URL-safe unpadded, that accepts the text.
pub open spec fn decode_spec(text: Seq<char>) -> Option<Seq<u8>> {
    if base64_decoded(Base64Alphabet::Standard, text) is Some {
        base64_decoded(Base64Alphabet::Standard, text)
    } else if base64_decoded(Base64Alphabet::StandardNoPad, text) is Some {
        base64_decoded(Base64Alphabet::StandardNoPad, text)
    } else if base64_decoded(Base64Alphabet::UrlSafe, text) is Some {
        base64_decoded(Base64Alphabet::UrlSafe, text)
    } else {
        base64_decoded(Base64Alphabet::UrlSafeNoPad, text)
    }
}

pub fn decode(encoded: &str) -> (r: Result<Vec<u8>, IdentityError>)
    ensures
        match r {
            Ok(b) => decode_spec(encoded@) == Some(b@),
            Err(e) => e == IdentityError::Envelope && decode_spec(encoded@) is None,
        },
{
    if let Some(b) = base64_decode(Base64Alphabet::Standard, encoded) {
        return Ok(b);
    }
    if let Some(b) = base64_decode(Base64Alphabet::StandardNoPad, encoded) {
        return Ok(b);
    }
    if let Some(b) = base64_decode(Base64Alphabet::UrlSafe, encoded) {
        return Ok(b);
    }
    match base64_decode(Base64Alphabet::UrlSafeNoPad, encoded) {
        Some(b) => Ok(b),
        None => Err(IdentityError::Envelope),
    }
}

/// The largest base64 text that can carry a payload of `MAX_PAYLOAD_BYTES`.
pub open spec fn max_encoded_payload() -> int {
    (MAX_PAYLOAD_BYTES + 2) / 3 * 4
}

pub open spec fn envelope_shape_ok(env: DsseEnvelope, expected: AgentIdentityView, role: AgentRole) -> bool {
    &&& env.payload_type@ == DSSE_PAYLOAD_TYPE@
    &&& byte_len(env.payload@) <= max_encoded_payload()
    &&& env.signatures@.len() > 0
    &&& env.signatures@.len() <= 8
    &&& expected.role == role
}

/// The payload bytes an envelope carries, if its shape and encoding are acceptable.
pub open spec fn envelope_payload(env: DsseEnvelope, expected: AgentIdentityView, role: AgentRole) -> Option<Seq<u8>> {
    if envelope_shape_ok(env, expected, role) && decode_spec(env.payload@) is Some
        && decode_spec(env.payload@)->0.len() <= MAX_PAYLOAD_BYTES {
        decode_spec(env.payload@)
    } else {
        None
    }
}

/// An enrolled key of the expected identity and role, unrevoked and valid at `now_ms`.
pub open spec fn key_usable(k: TrustedKey, expected: AgentIdentityView, role: AgentRole, now_ms: u64) -> bool {
    &&& k.identity@ == expected
    &&& k.identity@.role == role
    &&& !k.revoked
    &&& k.not_before_ms <= now_ms
    &&& now_ms < k.not_after_ms
    &&& k.public_key@.len() == 32
}

pub open spec fn key_accepts(
    k: TrustedKey,
    expected: AgentIdentityView,
    role: AgentRole,
    now_ms: u64,
    msg: Seq<u8>,
    sig: Seq<u8>,
) -> bool {
    key_usable(k, expected, role, now_ms) && ed25519_verifies(k.public_key@, msg, sig)
}

pub open spec fn sig_malformed(s: DsseSignature) -> bool {
    byte_len(s.sig@) > 128 || byte_len(s.keyid@) > 256 || decode_spec(s.sig@) is None
}

/// A well-formed signature that some usable trusted key accepts.
pub open spec fn sig_accepted(
    keys: Seq<TrustedKey>,
    expected: AgentIdentityView,
    role: AgentRole,
    now_ms: u64,
    msg: Seq<u8>,
    s: DsseSignature,
) -> bool {
    !sig_malformed(s) && exists|k: int| 0 <= k < keys.len() && key_accepts(#[trigger] keys[k], expected, role, now_ms, msg, decode_spec(s.sig@)->0)
}

/// Signatures before `i` are all well-formed and all rejected.
pub open spec fn none_decided_before(
    sigs: Seq<DsseSignature>,
    keys: Seq<TrustedKey>,
    expected: AgentIdentityView,
    role: AgentRole,
    now_ms: u64,
    msg: Seq<u8>,
    i: int,
) -> bool {
    forall|j: int| 0 <= j < i ==> !sig_malformed(#[trigger] sigs[j]) && !sig_accepted(keys, expected, role, now_ms, msg, sigs[j])
}

pub struct AuthenticatedPayloadView {
    pub bytes: Seq<u8>,
    pub signer: AgentIdentityView,
    pub key_digest: Seq<char>,
}

/// Bytes whose signature by an enrolled identity was verified. Constructed
/// only by `verify`.
pub struct AuthenticatedPayload {
    bytes: Vec<u8>,
    signer: AgentIdentity,
    key_digest: String,
}

impl View for AuthenticatedPayload {
    type V = AuthenticatedPayloadView;
    closed spec fn view(&self) -> AuthenticatedPayloadView {
        AuthenticatedPayloadView { bytes: self.bytes@, signer: self.signer@, key_digest: self.key_digest@ }
    }
}

impl AuthenticatedPayload {
    pub fn bytes(&self) -> (r: &[u8])
        ensures
            r@ == self@.bytes,
    {
        self.bytes.as_slice()
    }

    pub fn signer(&self) -> (r: &AgentIdentity)
        ensures
            r@ == self@.signer,
    {
        &self.signer
    }

    pub fn key_digest(&self) -> (r: &str)
        ensures
            r@ == self@.key_digest,
    {
        self.key_digest.as_str()
    }
}

/// What `verify` returns: the payload and the first usable trusted key, in
/// key order, that accepts the first decisive signature, in envelope order.
pub open spec fn verify_accepts(
    env: DsseEnvelope,
    keys: Seq<TrustedKey>,
    expected: AgentIdentityView,
    role: AgentRole,
    now_ms: u64,
    p: AuthenticatedPayloadView,
) -> bool {
    envelope_payload(env, expected, role) == Some(p.bytes) && {
        let msg = pae_spec(vstd::utf8::encode_utf8(env.payload_type@), p.bytes);
        exists|i: int, k: int| {
            &&& 0 <= i < env.signatures@.len()
            &&& 0 <= k < keys.len()
            &&& none_decided_before(env.signatures@, keys, expected, role, now_ms, msg, i)
            &&& !sig_malformed(env.signatures@[i])
            &&& key_accepts(keys[k], expected, role, now_ms, msg, decode_spec(env.signatures@[i].sig@)->0)
            &&& forall|m: int| 0 <= m < k ==> !key_accepts(#[trigger] keys[m], expected, role, now_ms, msg, decode_spec(env.signatures@[i].sig@)->0)
            &&& p.signer == keys[k].identity@
            &&& p.key_digest == payload_digest_spec(keys[k].public_key@)
        }
    }
}

pub open spec fn verify_message(env: DsseEnvelope, bytes: Seq<u8>) -> Seq<u8> {
    pae_spec(vstd::utf8::encode_utf8(env.payload_type@), bytes)
}

/// What verifying an envelope gives: an accepted payload, an `Envelope`
/// error for a malformed envelope or signature, or a `Signature` error when
/// no signature is accepted.
pub open spec fn verify_result(
    env: DsseEnvelope,
    keys: Seq<TrustedKey>,
    expected: AgentIdentityView,
    role: AgentRole,
    now_ms: u64,
    r: Result<AuthenticatedPayload, IdentityError>,
) -> bool {
    match r {
        Ok(p) => verify_accepts(env, keys, expected, role, now_ms, p@),
        Err(IdentityError::Envelope) => match envelope_payload(env, expected, role) {
            None => true,
            Some(b) => exists|i: int| 0 <= i < env.signatures@.len() && none_decided_before(
                env.signatures@, keys, expected, role, now_ms, verify_message(env, b), i)
                && sig_malformed(#[trigger] env.signatures@[i]),
        },
        Err(IdentityError::Signature) => match envelope_payload(env, expected, role) {
            None => false,
            Some(b) => none_decided_before(env.signatures@, keys, expected, role, now_ms,
                verify_message(env, b), env.signatures@.len() as int),
        },
        Err(_) => false,
    }
}

/// Verifies that an envelope is signed by an enrolled, unrevoked, currently
/// valid key of the expected identity and role. The `keyid` hint is never
/// authority. Malformed envelopes and signatures are `Envelope` errors; an
/// envelope with no accepted signature is a `Signature` error.
#[verifier::rlimit(40)]
pub fn verify(
    envelope: &DsseEnvelope,
    trusted: &[TrustedKey],
    expected_identity: &AgentIdentity,
    expected_role: AgentRole,
    now_ms: u64,
) -> (r: Result<AuthenticatedPayload, IdentityError>)
    ensures
        verify_result(*envelope, trusted@, expected_identity@, expected_role, now_ms, r),
{
    if !str_eq(envelope.payload_type.as_str(), DSSE_PAYLOAD_TYPE) || str_len(&envelope.payload) > (MAX_PAYLOAD_BYTES + 2) / 3 * 4
        || envelope.signatures.len() == 0 || envelope.signatures.len() > 8 || expected_identity.role() != expected_role {
        return Err(IdentityError::Envelope);
    }
    let bytes = match decode(envelope.payload.as_str()) {
        Ok(b) => b,
        Err(e) => {
            return Err(e);
        },
    };
    if bytes.len() > MAX_PAYLOAD_BYTES {
        return Err(IdentityError::Envelope);
    }
    let message = pae(envelope.payload_type.as_str().as_bytes(), bytes.as_slice());
    let ghost msg = verify_message(*envelope, bytes@);
    assert(message@ == msg);
    let ghost sigs = envelope.signatures@;
    let mut i: usize = 0;
    while i < envelope.signatures.len()
        invariant
            sigs == envelope.signatures@,
            envelope_payload(*envelope, expected_identity@, expected_role) == Some(bytes@),
            message@ == msg,
            msg == verify_message(*envelope, bytes@),
            i <= sigs.len(),
            none_decided_before(sigs, trusted@, expected_identity@, expected_role, now_ms, msg, i as int),
        decreases sigs.len() - i,
    {
        let signed = &envelope.signatures[i];
        if str_len(&signed.sig) > 128 || str_len(&signed.keyid) > 256 {
            assert(sig_malformed(sigs[i as int]));
            return Err(IdentityError::Envelope);
        }
        let signature = match decode(signed.sig.as_str()) {
            Ok(b) => b,
            Err(e) => {
                assert(sig_malformed(sigs[i as int]));
                return Err(e);
            },
        };
        let mut k: usize = 0;
        while k < trusted.len()
            invariant
                sigs == envelope.signatures@,
                envelope_payload(*envelope, expected_identity@, expected_role) == Some(bytes@),
                message@ == msg,
                msg == verify_message(*envelope, bytes@),
                i < sigs.len(),
                signed == &sigs[i as int],
                !sig_malformed(sigs[i as int]),
                decode_spec(sigs[i as int].sig@) == Some(signature@),
                none_decided_before(sigs, trusted@, expected_identity@, expected_role, now_ms, msg, i as int),
                k <= trusted@.len(),
                forall|m: int| 0 <= m < k ==> !key_accepts(#[trigger] trusted@[m], expected_identity@, expected_role, now_ms, msg, signature@),
            decreases trusted@.len() - k,
        {
            let key = &trusted[k];
            let usable = key.identity.same(expected_identity) && key.identity.role() == expected_role && !key.revoked
                && key.not_before_ms <= now_ms && now_ms < key.not_after_ms && key.public_key.len() == 32;
            if usable && ed25519_verify(key.public_key.as_slice(), message.as_slice(), signature.as_slice()) {
                let p = AuthenticatedPayload {
                    bytes,
                    signer: key.identity.clone(),
                    key_digest: payload_digest(key.public_key.as_slice()),
                };
                proof {
                    assert(key_accepts(trusted@[k as int], expected_identity@, expected_role, now_ms, msg,
                        decode_spec(sigs[i as int].sig@)->0));
                    assert(p@.signer == trusted@[k as int].identity@);
                    assert(p@.bytes == bytes@);
                    assert(p@.key_digest == payload_digest_spec(trusted@[k as int].public_key@));
                    assert(envelope_payload(*envelope, expected_identity@, expected_role) == Some(p@.bytes));
                }
                assert(verify_accepts(*envelope, trusted@, expected_identity@, expected_role, now_ms, p@));
                return Ok(p);
            }
            k = k + 1;
        }
        proof {
            if sig_accepted(trusted@, expected_identity@, expected_role, now_ms, msg, sigs[i as int]) {
                let kk = choose|kk: int| 0 <= kk < trusted@.len() && key_accepts(#[trigger] trusted@[kk], expected_identity@,
                    expected_role, now_ms, msg, decode_spec(sigs[i as int].sig@)->0);
                assert(!key_accepts(trusted@[kk], expected_identity@, expected_role, now_ms, msg, signature@));
            }
            assert forall|j: int| 0 <= j < i + 1 implies !sig_malformed(#[trigger] sigs[j]) && !sig_accepted(trusted@,
                expected_identity@, expected_role, now_ms, msg, sigs[j]) by {
                if j < i {
                    assert(none_decided_before(sigs, trusted@, expected_identity@, expected_role, now_ms, msg, i as int));
                }
            }
        }
        i = i + 1;
    }
    Err(IdentityError::Signature)
}

pub proof fn lemma_ascii_byte_len(s: Seq<char>)
    requires
        vstd::utf8::is_ascii_chars(s),
    ensures
        byte_len(s) == s.len(),
{
    vstd::utf8::is_ascii_chars_encode_utf8(s);
}

/// An Ed25519 signing key, held as its PKCS#8 v2 document. Intentionally
/// not `Debug`: private key bytes are never telemetry.
pub struct SigningKey {
    pkcs8: Vec<u8>,
}

/// The envelope `sign` makes for `payload` with the key in `pkcs8`.
pub open spec fn signed_envelope(pkcs8: Seq<u8>, payload: Seq<u8>, env: DsseEnvelope) -> bool {
    let pk = ed25519_public_key(pkcs8)->0;
    let msg = pae_spec(vstd::utf8::encode_utf8(DSSE_PAYLOAD_TYPE@), payload);
    &&& env.payload_type@ == DSSE_PAYLOAD_TYPE@
    &&& env.payload@ == base64_encoded(payload)
    &&& env.signatures@.len() == 1
    &&& env.signatures@[0].keyid@ == payload_digest_spec(pk)
    &&& env.signatures@[0].sig@ == base64_encoded(ed25519_signature(pkcs8, msg))
    // Facts about the encodings, as the `base64`, `sha2` and `ring` wrappers state them.
    &&& env.payload@.len() == 4 * ((payload.len() + 2) / 3)
    &&& vstd::utf8::is_ascii_chars(env.payload@)
    &&& base64_decoded(Base64Alphabet::Standard, env.payload@) == Some(payload)
    &&& env.signatures@[0].keyid@.len() == 64
    &&& vstd::utf8::is_ascii_chars(env.signatures@[0].keyid@)
    &&& env.signatures@[0].sig@.len() == 88
    &&& vstd::utf8::is_ascii_chars(env.signatures@[0].sig@)
    &&& base64_decoded(Base64Alphabet::Standard, env.signatures@[0].sig@) == Some(ed25519_signature(pkcs8, msg))
    &&& ed25519_verifies(pk, msg, ed25519_signature(pkcs8, msg))
}

impl SigningKey {
    #[verifier::type_invariant]
    spec fn well_formed(self) -> bool {
        ed25519_public_key(self.pkcs8@) is Some
    }

    /// The PKCS#8 document the key was made from.
    pub closed spec fn document(&self) -> Seq<u8> {
        self.pkcs8@
    }

    /// Generates a key; the returned PKCS#8 document belongs in the agent's
    /// private, permissioned store.
    pub fn generate() -> (r: Result<(SigningKey, Vec<u8>), IdentityError>)
        ensures
            r matches Ok((k, d)) ==> k.document() == d@ && ed25519_public_key(d@) is Some,
            r matches Err(e) ==> e == IdentityError::Key,
    {
        match ed25519_generate() {
            None => Err(IdentityError::Key),
            Some(document) => {
                let encoded = document.clone();
                match SigningKey::from_pkcs8(encoded.as_slice()) {
                    Ok(k) => Ok((k, encoded)),
                    Err(e) => Err(e),
                }
            },
        }
    }

    pub fn from_pkcs8(bytes: &[u8]) -> (r: Result<SigningKey, IdentityError>)
        ensures
            r is Ok <==> ed25519_public_key(bytes@) is Some,
            r matches Ok(k) ==> k.document() == bytes@,
            r matches Err(e) ==> e == IdentityError::Key,
    {
        match ed25519_public_key_of(bytes) {
            None => Err(IdentityError::Key),
            Some(_) => {
                let mut pkcs8: Vec<u8> = Vec::new();
                extend_bytes(&mut pkcs8, bytes);
                assert(pkcs8@ =~= bytes@);
                Ok(SigningKey { pkcs8 })
            },
        }
    }

    pub fn public_key(&self) -> (r: Vec<u8>)
        ensures
            Some(r@) == ed25519_public_key(self.document()),
    {
        proof {
            use_type_invariant(self);
        }
        match ed25519_public_key_of(self.pkcs8.as_slice()) {
            Some(pk) => pk,
            None => Vec::new(),
        }
    }

    /// Signs exact payload bytes into a single-signature DSSE envelope whose
    /// key ID is the SHA-256 of the public key (a hint, not authority).
    pub fn sign(&self, payload: &[u8]) -> (r: Result<DsseEnvelope, IdentityError>)
        ensures
            r is Err <==> payload@.len() > MAX_PAYLOAD_BYTES,
            r matches Err(e) ==> e == IdentityError::Envelope,
            r matches Ok(env) ==> signed_envelope(self.document(), payload@, env),
    {
        proof {
            use_type_invariant(self);
        }
        if payload.len() > MAX_PAYLOAD_BYTES {
            return Err(IdentityError::Envelope);
        }
        let msg = pae(DSSE_PAYLOAD_TYPE.as_bytes(), payload);
        let signature = ed25519_sign(self.pkcs8.as_slice(), msg.as_slice());
        let pk = self.public_key();
        let keyid = payload_digest(pk.as_slice());
        let sig = base64_encode(signature.as_slice());
        let encoded = base64_encode(payload);
        let mut signatures: Vec<DsseSignature> = Vec::new();
        signatures.push(DsseSignature { keyid, sig });
        let env = DsseEnvelope { payload_type: DSSE_PAYLOAD_TYPE.to_string(), payload: encoded, signatures };
        assert(env.signatures@[0].sig@.len() == 4 * ((64 + 2) / 3));
        Ok(env)
    }
}

/// Law: an envelope signed with a key verifies under any usable trusted
/// record of that key: its payload decodes to the signed bytes, and its
/// signature is well-formed and accepted.
pub proof fn lemma_signed_envelope_verifies(
    pkcs8: Seq<u8>,
    payload: Seq<u8>,
    env: DsseEnvelope,
    keys: Seq<TrustedKey>,
    expected: AgentIdentityView,
    role: AgentRole,
    now_ms: u64,
    k: int,
)
    requires
        ed25519_public_key(pkcs8) is Some,
        signed_envelope(pkcs8, payload, env),
        payload.len() <= MAX_PAYLOAD_BYTES,
        expected.role == role,
        0 <= k < keys.len(),
        key_usable(keys[k], expected, role, now_ms),
        Some(keys[k].public_key@) == ed25519_public_key(pkcs8),
    ensures
        envelope_payload(env, expected, role) == Some(payload),
        !sig_malformed(env.signatures@[0]),
        sig_accepted(keys, expected, role, now_ms, verify_message(env, payload), env.signatures@[0]),
        forall|p: AuthenticatedPayloadView| #[trigger] verify_accepts(env, keys, expected, role, now_ms, p)
            ==> p.bytes == payload && p.signer == expected,
{
    lemma_ascii_byte_len(env.payload@);
    lemma_ascii_byte_len(env.signatures@[0].keyid@);
    lemma_ascii_byte_len(env.signatures@[0].sig@);
    assert((payload.len() + 2) / 3 <= (MAX_PAYLOAD_BYTES + 2) / 3) by (nonlinear_arith)
        requires
            payload.len() <= MAX_PAYLOAD_BYTES,
    ;
    assert(decode_spec(env.payload@) == Some(payload));
    let msg = verify_message(env, payload);
    assert(msg == pae_spec(vstd::utf8::encode_utf8(DSSE_PAYLOAD_TYPE@), payload));
    assert(key_accepts(keys[k], expected, role, now_ms, msg, decode_spec(env.signatures@[0].sig@)->0));
}

} // verus!

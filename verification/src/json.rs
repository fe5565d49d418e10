//! The JSON wire encoding of strings and signed envelopes, byte for byte as
//! the agents exchange and digest it: object keys in declaration order, and
//! strings escaped with the two-character escapes for `"`, `\`, backspace,
//! tab, newline, form feed and carriage return and `\u00xx` (lowercase hex)
//! for other control bytes.
use crate::identity::{same_envelope, DsseEnvelope, DsseSignature};
use vstd::prelude::*;

verus! {

pub open spec fn lower_hex(n: u8) -> u8 {
    if n < 10 { (48 + n) as u8 } else { (87 + n) as u8 }
}

/// The escaped form of one byte of a UTF-8 string.
pub open spec fn escape_byte(b: u8) -> Seq<u8> {
    if b == 34 {
        seq![92u8, 34u8]
    } else if b == 92 {
        seq![92u8, 92u8]
    } else if b == 8 {
        seq![92u8, 98u8]
    } else if b == 9 {
        seq![92u8, 116u8]
    } else if b == 10 {
        seq![92u8, 110u8]
    } else if b == 12 {
        seq![92u8, 102u8]
    } else if b == 13 {
        seq![92u8, 114u8]
    } else if b < 32 {
        seq![92u8, 117u8, 48u8, 48u8, lower_hex(b / 16), lower_hex(b % 16)]
    } else {
        seq![b]
    }
}

pub open spec fn json_escape(bs: Seq<u8>) -> Seq<u8>
    decreases bs.len(),
{
    if bs.len() == 0 {
        Seq::empty()
    } else {
        json_escape(bs.drop_last()) + escape_byte(bs.last())
    }
}

/// A JSON string literal.
pub open spec fn json_str(s: Seq<char>) -> Seq<u8> {
    seq![34u8] + json_escape(vstd::utf8::encode_utf8(s)) + seq![34u8]
}

/// Items separated by commas.
pub open spec fn comma_join(parts: Seq<Seq<u8>>) -> Seq<u8>
    decreases parts.len(),
{
    if parts.len() == 0 {
        Seq::empty()
    } else if parts.len() == 1 {
        parts[0]
    } else {
        comma_join(parts.drop_last()) + seq![44u8] + parts.last()
    }
}

pub open spec fn json_array(parts: Seq<Seq<u8>>) -> Seq<u8> {
    seq![91u8] + comma_join(parts) + seq![93u8]
}

pub open spec fn lit(s: &str) -> Seq<u8> {
    vstd::utf8::encode_utf8(s@)
}

pub fn extend_bytes(out: &mut Vec<u8>, w: &[u8])
    ensures
        final(out)@ == old(out)@ + w@,
{
    let mut i: usize = 0;
    let ghost start = out@;
    while i < w.len()
        invariant
            i <= w@.len(),
            out@ == start + w@.subrange(0, i as int),
        decreases w@.len() - i,
    {
        out.push(w[i]);
        i = i + 1;
        assert(out@ =~= start + w@.subrange(0, i as int));
    }
    assert(w@.subrange(0, w@.len() as int) =~= w@);
}

fn push_escaped(out: &mut Vec<u8>, b: u8)
    ensures
        final(out)@ == old(out)@ + escape_byte(b),
{
    let ghost start = out@;
    if b == 34 {
        out.push(92);
        out.push(34);
    } else if b == 92 {
        out.push(92);
        out.push(92);
    } else if b == 8 {
        out.push(92);
        out.push(98);
    } else if b == 9 {
        out.push(92);
        out.push(116);
    } else if b == 10 {
        out.push(92);
        out.push(110);
    } else if b == 12 {
        out.push(92);
        out.push(102);
    } else if b == 13 {
        out.push(92);
        out.push(114);
    } else if b < 32 {
        let hi = b / 16;
        let lo = b % 16;
        out.push(92);
        out.push(117);
        out.push(48);
        out.push(48);
        out.push(if hi < 10 { 48 + hi } else { 87 + hi });
        out.push(if lo < 10 { 48 + lo } else { 87 + lo });
    } else {
        out.push(b);
    }
    assert(out@ =~= start + escape_byte(b));
}

pub(crate) fn push_json_str(out: &mut Vec<u8>, s: &String)
    ensures
        final(out)@ == old(out)@ + json_str(s@),
{
    let ghost start = out@;
    let bs = s.as_str().as_bytes();
    out.push(34);
    let mut i: usize = 0;
    while i < bs.len()
        invariant
            i <= bs@.len(),
            bs@ == vstd::utf8::encode_utf8(s@),
            out@ == start + seq![34u8] + json_escape(bs@.subrange(0, i as int)),
        decreases bs@.len() - i,
    {
        let ghost before = out@;
        push_escaped(out, bs[i]);
        assert(bs@.subrange(0, i + 1).drop_last() =~= bs@.subrange(0, i as int));
        i = i + 1;
        assert(out@ =~= start + seq![34u8] + json_escape(bs@.subrange(0, i as int)));
    }
    assert(bs@.subrange(0, bs@.len() as int) =~= bs@);
    out.push(34);
    assert(out@ =~= start + json_str(s@));
}

pub const KEYID_HEAD: &'static str = "{\"keyid\":";
pub const SIG_KEY: &'static str = ",\"sig\":";
pub const PAYLOAD_TYPE_HEAD: &'static str = "{\"payloadType\":";
pub const PAYLOAD_KEY: &'static str = ",\"payload\":";
pub const SIGNATURES_KEY: &'static str = ",\"signatures\":";

/// The JSON encoding of one DSSE signature.
pub open spec fn json_signature(s: DsseSignature) -> Seq<u8> {
    lit(KEYID_HEAD) + json_str(s.keyid@) + lit(SIG_KEY) + json_str(s.sig@) + seq![125u8]
}

/// The JSON encoding of a DSSE envelope, with its fields in wire order.
pub open spec fn json_envelope(env: DsseEnvelope) -> Seq<u8> {
    lit(PAYLOAD_TYPE_HEAD) + json_str(env.payload_type@) + lit(PAYLOAD_KEY) + json_str(env.payload@) + lit(SIGNATURES_KEY)
        + json_array(env.signatures@.map_values(|x: DsseSignature| json_signature(x))) + seq![125u8]
}

/// Envelopes with the same contents encode alike.
pub proof fn lemma_same_envelope_json(a: DsseEnvelope, b: DsseEnvelope)
    requires
        same_envelope(a, b),
    ensures
        json_envelope(a) == json_envelope(b),
{
    let sa = a.signatures@.map_values(|x: DsseSignature| json_signature(x));
    let sb = b.signatures@.map_values(|x: DsseSignature| json_signature(x));
    assert(sa =~= sb) by {
        assert forall|i: int| 0 <= i < sa.len() implies sa[i] == sb[i] by {
            assert(a.signatures@[i].keyid@ == b.signatures@[i].keyid@);
        }
    }
}

fn push_json_signature(out: &mut Vec<u8>, x: &DsseSignature)
    ensures
        final(out)@ == old(out)@ + json_signature(*x),
{
    let ghost start = out@;
    extend_bytes(out, KEYID_HEAD.as_bytes());
    push_json_str(out, &x.keyid);
    extend_bytes(out, SIG_KEY.as_bytes());
    push_json_str(out, &x.sig);
    out.push(125);
    assert(out@ =~= start + json_signature(*x));
}

pub(crate) fn push_json_envelope(out: &mut Vec<u8>, env: &DsseEnvelope)
    ensures
        final(out)@ == old(out)@ + json_envelope(*env),
{
    let ghost start = out@;
    extend_bytes(out, PAYLOAD_TYPE_HEAD.as_bytes());
    push_json_str(out, &env.payload_type);
    extend_bytes(out, PAYLOAD_KEY.as_bytes());
    push_json_str(out, &env.payload);
    extend_bytes(out, SIGNATURES_KEY.as_bytes());
    let ghost mid = out@;
    let v = &env.signatures;
    let ghost parts = v@.map_values(|x: DsseSignature| json_signature(x));
    out.push(91);
    let mut i: usize = 0;
    while i < v.len()
        invariant
            i <= v@.len(),
            parts == v@.map_values(|x: DsseSignature| json_signature(x)),
            out@ == mid + seq![91u8] + comma_join(parts.subrange(0, i as int)),
        decreases v@.len() - i,
    {
        if i > 0 {
            out.push(44);
        }
        push_json_signature(out, &v[i]);
        proof {
            let p = parts.subrange(0, i + 1);
            assert(p.drop_last() =~= parts.subrange(0, i as int));
            assert(p.last() == json_signature(v@[i as int]));
            if i == 0 {
                assert(comma_join(p) == p[0]);
            }
        }
        i = i + 1;
        assert(out@ =~= mid + seq![91u8] + comma_join(parts.subrange(0, i as int)));
    }
    assert(parts.subrange(0, parts.len() as int) =~= parts);
    out.push(93);
    out.push(125);
    assert(out@ =~= start + json_envelope(*env));
}

} // verus!

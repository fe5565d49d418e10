//! The decisions of bounded, observation-only probe execution: which probes
//! this witness may run, how an ICMP echo is framed and its reply judged,
//! which failures are retried, and how transport failures are classified.
//! A failed or unavailable observation never becomes a success.
use crate::assurance::{IpFamily, Outcome, Primitive, ProbeSpec, ProbeSpecView};
use crate::check::{valid_probe, validate_probe};
use crate::net::IpAddr;
use crate::state::{ascii_lower, ascii_lowercase, contains_chars, contains_seq};
use vstd::prelude::*;

verus! {

pub const ICMP_PAYLOAD_LEN: usize = 16;

/// Why this witness build refuses an otherwise valid probe.
pub open spec fn witness_refusal(p: ProbeSpecView) -> Option<Seq<char>> {
    if p.source.interface is Some {
        Some("interface binding is unsupported on this witness platform; refusing source-address fallback"@)
    } else if p.source.bind_address.is_ipv4_broadcast_spec() {
        Some("source bind address must not be the IPv4 limited broadcast address"@)
    } else if p.endpoint matches Some(e) && e.address.is_ipv4_broadcast_spec() {
        Some("endpoint must not be the IPv4 limited broadcast address"@)
    } else if p.primitive == Primitive::Icmp && p.limits.max_response_bytes < 8 + ICMP_PAYLOAD_LEN {
        Some("ICMP response limit cannot hold the authenticated echo payload"@)
    } else {
        None
    }
}

/// Checks the shared wire contract, then what this witness build can run:
/// execution never relaxes admission rules.
pub fn validate(spec: &ProbeSpec) -> (r: Result<(), String>)
    ensures
        !valid_probe(spec@) ==> r is Err,
        valid_probe(spec@) ==> match witness_refusal(spec@) {
            None => r is Ok,
            Some(m) => r matches Err(e) && e@ == m,
        },
{
    match validate_probe(spec) {
        Err(e) => {
            return Err(e.message());
        },
        Ok(()) => {},
    }
    if spec.source.interface.is_some() {
        return Err("interface binding is unsupported on this witness platform; refusing source-address fallback".to_string());
    }
    if spec.source.bind_address.is_ipv4_broadcast() {
        return Err("source bind address must not be the IPv4 limited broadcast address".to_string());
    }
    match &spec.endpoint {
        Some(e) => {
            if e.address.is_ipv4_broadcast() {
                return Err("endpoint must not be the IPv4 limited broadcast address".to_string());
            }
        },
        None => {},
    }
    if spec.primitive == Primitive::Icmp && spec.limits.max_response_bytes < 24 {
        return Err("ICMP response limit cannot hold the authenticated echo payload".to_string());
    }
    Ok(())
}

/// Only a timeout or an unreachable peer is worth another attempt.
pub open spec fn retryable_spec(o: Outcome) -> bool {
    o == Outcome::Timeout || o == Outcome::Unreachable
}

pub fn retryable(o: Outcome) -> (r: bool)
    ensures
        r == retryable_spec(o),
{
    o == Outcome::Timeout || o == Outcome::Unreachable
}

/// The 16-bit big-endian word `i` of the bytes, an odd last byte padded with zero.
pub open spec fn word_at(bytes: Seq<u8>, i: int) -> int {
    bytes[2 * i] * 256 + if 2 * i + 1 < bytes.len() { bytes[2 * i + 1] as int } else { 0 }
}

pub open spec fn word_sum(bytes: Seq<u8>, n: int) -> int
    decreases n,
{
    if n <= 0 { 0 } else { word_sum(bytes, n - 1) + word_at(bytes, n - 1) }
}

pub open spec fn word_count(bytes: Seq<u8>) -> int {
    ((bytes.len() + 1) / 2) as int
}

/// End-around-carry folding of a sum to 16 bits.
pub open spec fn fold16(x: int) -> int
    decreases x,
{
    if x < 65536 { x } else { fold16(x % 65536 + x / 65536) }
}

/// The Internet checksum: the ones' complement of the ones'-complement sum
/// of the 16-bit words.
pub open spec fn checksum_spec(bytes: Seq<u8>) -> int {
    65535 - fold16(word_sum(bytes, word_count(bytes)))
}

proof fn lemma_word_bounds(bytes: Seq<u8>, n: int)
    requires
        0 <= n <= word_count(bytes),
    ensures
        0 <= word_sum(bytes, n) <= 65535 * n,
    decreases n,
{
    if n > 0 {
        lemma_word_bounds(bytes, n - 1);
        assert(0 <= word_at(bytes, n - 1) <= 65535);
    }
}

proof fn lemma_fold16(x: int)
    requires
        x >= 0,
    ensures
        0 <= fold16(x) <= 65535,
        fold16(x) <= x,
        fold16(x) % 65535 == x % 65535,
        x > 0 ==> fold16(x) > 0,
    decreases x,
{
    if x >= 65536 {
        let q = x / 65536;
        let r = x % 65536;
        vstd::arithmetic::div_mod::lemma_fundamental_div_mod(x, 65536);
        assert(q >= 1);
        let y = r + q;
        assert(y < x);
        assert(x == 65535 * q + y);
        vstd::arithmetic::div_mod::lemma_mod_multiples_vanish(q, y, 65535);
        lemma_fold16(y);
    }
}

/// The words of the bytes after the second word is set to `c`: the sum
/// grows by `c` once the second word is counted.
proof fn lemma_word_sum_with(bytes: Seq<u8>, c: int, k: int)
    requires
        bytes.len() >= 4,
        bytes[2] == 0,
        bytes[3] == 0,
        0 <= c <= 65535,
        0 <= k <= word_count(bytes),
    ensures
        word_sum(bytes.update(2, (c / 256) as u8).update(3, (c % 256) as u8), k) == word_sum(bytes, k) + if k >= 2 { c } else { 0 },
    decreases k,
{
    let b2 = bytes.update(2, (c / 256) as u8).update(3, (c % 256) as u8);
    if k > 0 {
        lemma_word_sum_with(bytes, c, k - 1);
        if k - 1 == 1 {
            assert(word_at(b2, 1) == c);
            assert(word_at(bytes, 1) == 0);
        } else {
            assert(b2[2 * (k - 1)] == bytes[2 * (k - 1)]);
            assert(2 * (k - 1) + 1 < b2.len() ==> b2[2 * (k - 1) + 1] == bytes[2 * (k - 1) + 1]);
            assert(word_at(b2, k - 1) == word_at(bytes, k - 1));
        }
    }
}

/// Law: a packet carrying its own checksum in its second word (bytes 2
/// and 3, zero while the checksum was computed) checksums to zero.
pub proof fn lemma_checksum_verifies(bytes: Seq<u8>)
    requires
        bytes.len() >= 4,
        bytes[2] == 0,
        bytes[3] == 0,
    ensures
        checksum_spec(bytes.update(2, (checksum_spec(bytes) / 256) as u8).update(3, (checksum_spec(bytes) % 256) as u8)) == 0,
{
    let n = word_count(bytes);
    let s = word_sum(bytes, n);
    lemma_word_bounds(bytes, n);
    lemma_fold16(s);
    let c = checksum_spec(bytes);
    let b2 = bytes.update(2, (c / 256) as u8).update(3, (c % 256) as u8);
    assert(word_count(b2) == n);
    lemma_word_sum_with(bytes, c, n);
    let s2 = s + c;
    assert(word_sum(b2, word_count(b2)) == s2);
    assert(s2 == s + 65535 - fold16(s));
    vstd::arithmetic::div_mod::lemma_fundamental_div_mod(s, 65535);
    vstd::arithmetic::div_mod::lemma_fundamental_div_mod(fold16(s), 65535);
    assert(s2 % 65535 == 0) by {
        let q1 = s / 65535;
        let q2 = fold16(s) / 65535;
        assert(s2 == 65535 * (q1 - q2 + 1));
        vstd::arithmetic::div_mod::lemma_mod_multiples_vanish(q1 - q2 + 1, 0, 65535);
    }
    lemma_fold16(s2);
}

pub fn checksum(bytes: &[u8]) -> (r: u16)
    requires
        bytes@.len() <= 131_072,
    ensures
        r == checksum_spec(bytes@),
{
    let n = (bytes.len() + 1) / 2;
    let mut sum: u32 = 0;
    let mut i: usize = 0;
    while i < n
        invariant
            bytes@.len() <= 131_072,
            n == word_count(bytes@),
            i <= n,
            sum == word_sum(bytes@, i as int),
            sum <= 65535 * i,
        decreases n - i,
    {
        proof {
            lemma_word_bounds(bytes@, i + 1);
        }
        let hi = bytes[2 * i] as u32;
        let lo = if 2 * i + 1 < bytes.len() { bytes[2 * i + 1] as u32 } else { 0 };
        sum = sum + hi * 256 + lo;
        i = i + 1;
    }
    let ghost total = sum as int;
    while sum >> 16 != 0
        invariant
            fold16(sum as int) == fold16(total),
        decreases sum,
    {
        let low = sum & 0xffff;
        let high = sum >> 16;
        assert(low == sum % 65536 && high == sum / 65536) by (bit_vector)
            requires
                low == sum & 0xffff,
                high == sum >> 16,
        ;
        assert(sum >> 16 != 0 ==> sum >= 65536) by (bit_vector);
        sum = low + high;
    }
    assert(sum >> 16 == 0 ==> sum < 65536) by (bit_vector);
    let folded = sum as u16;
    let r = !folded;
    assert(r == 65535 - folded) by (bit_vector)
        requires
            r == !folded,
    ;
    r
}

/// The ICMP echo request: type, code, checksum, identifier, sequence and
/// payload; IPv4 carries the checksum, IPv6's is left to the kernel.
pub open spec fn echo_header(request_type: u8, id: u16, seq: u16) -> Seq<u8> {
    seq![request_type, 0u8, 0u8, 0u8, (id / 256) as u8, (id % 256) as u8, (seq / 256) as u8, (seq % 256) as u8]
}

pub open spec fn echo_request_spec(family: IpFamily, id: u16, seq: u16, payload: Seq<u8>) -> Seq<u8> {
    let request_type: u8 = if family == IpFamily::V4 { 8 } else { 128 };
    let p = echo_header(request_type, id, seq) + payload;
    if family == IpFamily::V4 {
        let sum = checksum_spec(p);
        p.update(2, (sum / 256) as u8).update(3, (sum % 256) as u8)
    } else {
        p
    }
}

pub fn echo_request(family: IpFamily, id: u16, seq: u16, payload: &[u8]) -> (r: Vec<u8>)
    requires
        payload@.len() <= 65_536,
    ensures
        r@ == echo_request_spec(family, id, seq, payload@),
{
    let request_type: u8 = match family {
        IpFamily::V4 => 8,
        IpFamily::V6 => 128,
    };
    let mut packet: Vec<u8> = Vec::new();
    packet.push(request_type);
    packet.push(0);
    packet.push(0);
    packet.push(0);
    packet.push((id / 256) as u8);
    packet.push((id % 256) as u8);
    packet.push((seq / 256) as u8);
    packet.push((seq % 256) as u8);
    crate::json::extend_bytes(&mut packet, payload);
    assert(packet@ =~= echo_header(request_type, id, seq) + payload@);
    match family {
        IpFamily::V4 => {
            let sum = checksum(packet.as_slice());
            packet.set(2, (sum / 256) as u8);
            packet.set(3, (sum % 256) as u8);
        },
        IpFamily::V6 => {},
    }
    packet
}

/// Where the ICMP message starts in a reply: after the IPv4 header when the
/// reply carries one (a valid header length of 20 bytes or more, within the
/// reply), else at the start.
pub open spec fn echo_offset(family: IpFamily, bytes: Seq<u8>) -> Option<int> {
    if family == IpFamily::V4 && bytes.len() > 0 && bytes[0] / 16 == 4 {
        let h = (bytes[0] % 16) * 4;
        if h < 20 || h > bytes.len() { None } else { Some(h as int) }
    } else {
        Some(0)
    }
}

/// The reply at `off` echoes exactly this request, from the expected peer.
pub open spec fn echo_matches(
    expected_peer: IpAddr,
    peer: Option<IpAddr>,
    bytes: Seq<u8>,
    off: int,
    response_type: u8,
    id: u16,
    seq: u16,
    payload: Seq<u8>,
) -> bool {
    &&& peer == Some(expected_peer)
    &&& bytes.len() == off + 8 + payload.len()
    &&& bytes[off] == response_type
    &&& bytes[off + 1] == 0
    &&& bytes[off + 4] == id / 256 && bytes[off + 5] == id % 256
    &&& bytes[off + 6] == seq / 256 && bytes[off + 7] == seq % 256
    &&& bytes.subrange(off + 8, bytes.len() as int) == payload
}

pub open spec fn echo_reply_outcome(
    family: IpFamily,
    expected_peer: IpAddr,
    peer: Option<IpAddr>,
    bytes: Seq<u8>,
    response_type: u8,
    id: u16,
    seq: u16,
    payload: Seq<u8>,
) -> Outcome {
    match echo_offset(family, bytes) {
        None => Outcome::MalformedResponse,
        Some(off) => if echo_matches(expected_peer, peer, bytes, off, response_type, id, seq, payload) {
            Outcome::Success
        } else {
            Outcome::MalformedResponse
        },
    }
}

/// Law: an ICMP echo reply is a success exactly when it comes from the
/// expected peer and, after the IPv4 header a V4 reply may carry (its length
/// in 32-bit words in the low nibble of the first byte, at least 20 bytes),
/// holds the expected response type with code 0, the request's identifier
/// and sequence number in network byte order, and then exactly the request's
/// payload; anything else is a malformed response.
pub proof fn lemma_echo_success_is_exact_echo(
    family: IpFamily,
    expected_peer: IpAddr,
    peer: Option<IpAddr>,
    bytes: Seq<u8>,
    response_type: u8,
    id: u16,
    seq: u16,
    payload: Seq<u8>,
)
    ensures
        echo_reply_outcome(family, expected_peer, peer, bytes, response_type, id, seq, payload) == Outcome::Success
            || echo_reply_outcome(family, expected_peer, peer, bytes, response_type, id, seq, payload) == Outcome::MalformedResponse,
        echo_reply_outcome(family, expected_peer, peer, bytes, response_type, id, seq, payload) == Outcome::Success <==> exists|off: int|
            #![trigger bytes[off]]
            (if family == IpFamily::V4 && bytes.len() > 0 && bytes[0] / 16 == 4 {
                off == (bytes[0] % 16) * 4 && 20 <= off
            } else {
                off == 0
            }) && peer == Some(expected_peer) && bytes.len() == off + 8 + payload.len() && bytes[off] == response_type && bytes[off + 1] == 0
                && bytes[off + 4] * 256 + bytes[off + 5] == id && bytes[off + 6] * 256 + bytes[off + 7] == seq
                && forall|i: int| 0 <= i < payload.len() ==> bytes[off + 8 + i] == #[trigger] payload[i],
{
    match echo_offset(family, bytes) {
        None => {},
        Some(off) => {
            let a = bytes[off + 4];
            let b = bytes[off + 5];
            let c = bytes[off + 6];
            let d = bytes[off + 7];
            assert(a * 256 + b == id <==> (a == id / 256 && b == id % 256)) by (nonlinear_arith)
                requires
                    0 <= a < 256,
                    0 <= b < 256,
                    0 <= id < 65536,
            ;
            assert(c * 256 + d == seq <==> (c == seq / 256 && d == seq % 256)) by (nonlinear_arith)
                requires
                    0 <= c < 256,
                    0 <= d < 256,
                    0 <= seq < 65536,
            ;
            if bytes.len() == off + 8 + payload.len() {
                let tail = bytes.subrange(off + 8, bytes.len() as int);
                if forall|i: int| 0 <= i < payload.len() ==> bytes[off + 8 + i] == #[trigger] payload[i] {
                    assert(tail =~= payload);
                }
                if tail == payload {
                    assert forall|i: int| 0 <= i < payload.len() implies bytes[off + 8 + i] == #[trigger] payload[i] by {
                        assert(tail[i] == bytes[off + 8 + i]);
                    }
                }
            }
            if echo_matches(expected_peer, peer, bytes, off, response_type, id, seq, payload) {
                assert(bytes[off] == response_type);
            }
        },
    }
}

fn bytes_equal_at(bytes: &[u8], off: usize, payload: &[u8]) -> (r: bool)
    requires
        off + payload@.len() == bytes@.len(),
    ensures
        r == (bytes@.subrange(off as int, bytes@.len() as int) == payload@),
{
    let n = bytes.len();
    let mut i: usize = 0;
    while i < payload.len()
        invariant
            off + payload@.len() == bytes@.len(),
            n == bytes@.len(),
            i <= payload@.len(),
            forall|j: int| 0 <= j < i ==> bytes@[off + j] == payload@[j],
        decreases payload@.len() - i,
    {
        if bytes[off + i] != payload[i] {
            assert(bytes@.subrange(off as int, bytes@.len() as int)[i as int] != payload@[i as int]);
            return false;
        }
        i = i + 1;
    }
    assert(bytes@.subrange(off as int, bytes@.len() as int) =~= payload@);
    true
}

/// The big-endian bytes of a 16-bit value.
fn be_bytes(v: u16) -> (r: (u8, u8))
    ensures
        r.0 == v / 256 && r.1 == v % 256,
{
    ((v / 256) as u8, (v % 256) as u8)
}

/// The length in bytes of an IPv4 header whose first byte is `b`.
fn ipv4_header_len(b: u8) -> (r: usize)
    ensures
        r == (b % 16) * 4,
{
    ((b % 16) as usize) * 4
}

/// Judges an ICMP echo reply: success only when it exactly echoes the
/// request from the expected peer.
pub fn validate_icmp_reply(
    family: IpFamily,
    expected_peer: IpAddr,
    peer: Option<IpAddr>,
    bytes: &[u8],
    response_type: u8,
    id: u16,
    seq: u16,
    payload: &[u8],
) -> (r: (Outcome, String))
    ensures
        r.0 == echo_reply_outcome(family, expected_peer, peer, bytes@, response_type, id, seq, payload@),
{
    let mut offset: usize = 0;
    if family == IpFamily::V4 && bytes.len() > 0 && bytes[0] / 16 == 4 {
        let header_len = ipv4_header_len(bytes[0]);
        if header_len < 20 || header_len > bytes.len() {
            return (Outcome::MalformedResponse, "ICMP reply has an invalid IPv4 header length".to_string());
        }
        offset = header_len;
    }
    let peer_ok = match peer {
        Some(p) => p == expected_peer,
        None => false,
    };
    let (id_hi, id_lo) = be_bytes(id);
    let (seq_hi, seq_lo) = be_bytes(seq);
    let ok = peer_ok && bytes.len() >= offset && bytes.len() - offset >= 8 && bytes.len() - offset - 8 == payload.len()
        && bytes[offset] == response_type && bytes[offset + 1] == 0 && bytes[offset + 4] == id_hi
        && bytes[offset + 5] == id_lo && bytes[offset + 6] == seq_hi && bytes[offset + 7] == seq_lo
        && bytes_equal_at(bytes, offset + 8, payload);
    if ok {
        (Outcome::Success, "native ICMP echo reply exactly matched request".to_string())
    } else {
        (Outcome::MalformedResponse, "ICMP reply did not exactly match request".to_string())
    }
}

/// The kinds of local I/O failure a probe distinguishes.
#[derive(Debug, Clone, Copy, PartialEq, Eq, Structural)]
pub enum IoFailure {
    ConnectionRefused,
    TimedOut,
    WouldBlock,
    AddrNotAvailable,
    NetworkUnreachable,
    HostUnreachable,
    NotConnected,
    PermissionDenied,
    Other,
}

pub open spec fn io_outcome_spec(k: IoFailure) -> Outcome {
    match k {
        IoFailure::ConnectionRefused => Outcome::Refused,
        IoFailure::TimedOut | IoFailure::WouldBlock => Outcome::Timeout,
        IoFailure::PermissionDenied => Outcome::Unavailable,
        _ => Outcome::Unreachable,
    }
}

/// The outcome an I/O failure stands for.
pub fn io_outcome(k: IoFailure) -> (r: Outcome)
    ensures
        r == io_outcome_spec(k),
{
    match k {
        IoFailure::ConnectionRefused => Outcome::Refused,
        IoFailure::TimedOut | IoFailure::WouldBlock => Outcome::Timeout,
        IoFailure::PermissionDenied => Outcome::Unavailable,
        _ => Outcome::Unreachable,
    }
}

pub open spec fn tls_words() -> Seq<Seq<char>> {
    seq!["tls"@, "ssl"@, "certificate"@, "handshake"@]
}

/// How an HTTP client failure is classified: a timeout; over HTTPS, an
/// explicit TLS or certificate cause; a protocol failure; else transport.
pub open spec fn http_failure_spec(timed_out: bool, protocol: bool, https: bool, detail: Seq<char>) -> Outcome {
    let lower = detail.map_values(|c: char| ascii_lower(c));
    if timed_out {
        Outcome::Timeout
    } else if https && exists|w: int| 0 <= w < tls_words().len() && contains_seq(lower, #[trigger] tls_words()[w]) {
        Outcome::TlsFailure
    } else if protocol {
        Outcome::MalformedResponse
    } else {
        Outcome::Unreachable
    }
}

/// Classifies an HTTP client failure; `protocol` is set for builder,
/// request and decode failures.
pub fn http_failure(timed_out: bool, protocol: bool, scheme: &str, detail: &str) -> (r: Outcome)
    ensures
        r == http_failure_spec(timed_out, protocol, scheme@ == "https"@, detail@),
{
    if timed_out {
        return Outcome::Timeout;
    }
    let https = crate::text::str_eq(scheme, "https");
    let lower = ascii_lowercase(detail);
    let w0 = ['t', 'l', 's'];
    let w1 = ['s', 's', 'l'];
    let w2 = ['c', 'e', 'r', 't', 'i', 'f', 'i', 'c', 'a', 't', 'e'];
    let w3 = ['h', 'a', 'n', 'd', 's', 'h', 'a', 'k', 'e'];
    proof {
        reveal_strlit("tls");
        reveal_strlit("ssl");
        reveal_strlit("certificate");
        reveal_strlit("handshake");
        assert(w0@ =~= tls_words()[0]);
        assert(w1@ =~= tls_words()[1]);
        assert(w2@ =~= tls_words()[2]);
        assert(w3@ =~= tls_words()[3]);
    }
    let tls = https && (contains_chars(&lower, &w0) || contains_chars(&lower, &w1) || contains_chars(&lower, &w2)
        || contains_chars(&lower, &w3));
    proof {
        let l = detail@.map_values(|c: char| ascii_lower(c));
        if https && exists|w: int| 0 <= w < tls_words().len() && contains_seq(l, #[trigger] tls_words()[w]) {
            let w = choose|w: int| 0 <= w < tls_words().len() && contains_seq(l, #[trigger] tls_words()[w]);
            assert(tls);
        }
        if tls {
            if contains_seq(l, w0@) {
                assert(contains_seq(l, tls_words()[0]));
            } else if contains_seq(l, w1@) {
                assert(contains_seq(l, tls_words()[1]));
            } else if contains_seq(l, w2@) {
                assert(contains_seq(l, tls_words()[2]));
            } else {
                assert(contains_seq(l, tls_words()[3]));
            }
        }
    }
    if tls {
        Outcome::TlsFailure
    } else if protocol {
        Outcome::MalformedResponse
    } else {
        Outcome::Unreachable
    }
}

/// The URL authority for an HTTP probe's host: an IP host must be the
/// probe's endpoint, and an IPv6 one is bracketed.
pub open spec fn http_authority_spec(host: Seq<char>, endpoint: IpAddr) -> Option<Seq<char>> {
    match crate::net::parse_ip_spec(host) {
        Some(ip) => if ip != endpoint {
            None
        } else if ip is V6 {
            Some(seq!['['] + host + seq![']'])
        } else {
            Some(host)
        },
        None => Some(host),
    }
}

pub fn http_authority(host: &str, endpoint: IpAddr) -> (r: Result<String, (Outcome, String)>)
    ensures
        match http_authority_spec(host@, endpoint) {
            Some(a) => r matches Ok(s) && s@ == a,
            None => r matches Err(e) && e.0 == Outcome::Unsupported,
        },
{
    match crate::net::parse_ip(host) {
        Some(ip) => {
            if ip != endpoint {
                return Err((Outcome::Unsupported, "HTTP IP host must equal the concrete endpoint".to_string()));
            }
            match ip {
                IpAddr::V6(..) => {
                    let a = crate::protocol::concat_str("[", host);
                    proof {
                        reveal_strlit("[");
                        reveal_strlit("]");
                    }
                    Ok(crate::protocol::concat_str(a.as_str(), "]"))
                },
                IpAddr::V4(..) => Ok(host.to_string()),
            }
        },
        None => Ok(host.to_string()),
    }
}

pub open spec fn header_total(sizes: Seq<(usize, usize)>) -> int
    decreases sizes.len(),
{
    if sizes.len() == 0 {
        2
    } else {
        let t = header_total(sizes.drop_last());
        let s = sizes.last().0 + sizes.last().1 + 4;
        if t + s > usize::MAX { usize::MAX as int } else { t + s }
    }
}

/// The bytes the response headers take, counted as the wire does: two for
/// the terminator and, per header, its name, value, separator and line end;
/// saturating at the largest count.
pub fn header_bytes(sizes: &[(usize, usize)]) -> (r: usize)
    requires
        forall|i: int| 0 <= i < sizes@.len() ==> (#[trigger] sizes@[i]).0 + sizes@[i].1 + 4 <= usize::MAX,
    ensures
        r == header_total(sizes@),
{
    let mut total: usize = 2;
    let mut i: usize = 0;
    while i < sizes.len()
        invariant
            i <= sizes@.len(),
            forall|j: int| 0 <= j < sizes@.len() ==> (#[trigger] sizes@[j]).0 + sizes@[j].1 + 4 <= usize::MAX,
            total == header_total(sizes@.subrange(0, i as int)),
        decreases sizes@.len() - i,
    {
        let (n, v) = sizes[i];
        let s = n + v + 4;
        proof {
            let p = sizes@.subrange(0, i + 1);
            assert(p.drop_last() =~= sizes@.subrange(0, i as int));
            assert(p.last() == sizes@[i as int]);
        }
        total = total.saturating_add(s);
        i = i + 1;
    }
    assert(sizes@.subrange(0, sizes@.len() as int) =~= sizes@);
    total
}

/// An HTTP probe succeeds exactly on the expected status.
pub fn http_status_outcome(observed: u16, expected: u16) -> (r: Outcome)
    ensures
        r == if observed == expected { Outcome::Success } else { Outcome::Violation },
{
    if observed == expected { Outcome::Success } else { Outcome::Violation }
}

} // verus!

//! DNS probe framing and judgement. The message codec is `hickory-proto`'s;
//! this module decides what a decoded reply means for the probe: it must
//! answer exactly the request, be complete, and carry every expected answer.
use crate::assurance::Outcome;
use crate::text::view_strings;
use hickory_proto::op::{Message, MessageType, OpCode, Query};
use hickory_proto::rr::{Name, RecordType};
use hickory_proto::serialize::binary::{BinDecodable, BinEncodable};
use vstd::prelude::*;

verus! {

/// A domain name as its labels' bytes and whether it is fully qualified.
pub struct DnsName {
    pub labels: Vec<Vec<u8>>,
    pub fqdn: bool,
}

pub struct DnsNameView {
    pub labels: Seq<Seq<u8>>,
    pub fqdn: bool,
}

impl View for DnsName {
    type V = DnsNameView;
    open spec fn view(&self) -> DnsNameView {
        DnsNameView { labels: self.labels@.map_values(|l: Vec<u8>| l@), fqdn: self.fqdn }
    }
}

pub struct DnsQuestion {
    pub name: DnsName,
    pub record_type: u16,
    pub class: u16,
}

pub struct DnsQuestionView {
    pub name: DnsNameView,
    pub record_type: u16,
    pub class: u16,
}

impl View for DnsQuestion {
    type V = DnsQuestionView;
    open spec fn view(&self) -> DnsQuestionView {
        DnsQuestionView { name: self.name@, record_type: self.record_type, class: self.class }
    }
}

/// An answer record with its data rendered as text.
pub struct DnsRecord {
    pub name: DnsName,
    pub record_type: u16,
    pub class: u16,
    pub rendered: String,
}

pub struct DnsRecordView {
    pub name: DnsNameView,
    pub record_type: u16,
    pub class: u16,
    pub rendered: Seq<char>,
}

impl View for DnsRecord {
    type V = DnsRecordView;
    open spec fn view(&self) -> DnsRecordView {
        DnsRecordView { name: self.name@, record_type: self.record_type, class: self.class, rendered: self.rendered@ }
    }
}

/// The fields of a decoded DNS message that a probe judges.
pub struct DnsMessage {
    pub id: u16,
    pub is_response: bool,
    pub op_code: u8,
    pub truncated: bool,
    pub response_code: u16,
    pub queries: Vec<DnsQuestion>,
    pub answers: Vec<DnsRecord>,
}

pub struct DnsMessageView {
    pub id: u16,
    pub is_response: bool,
    pub op_code: u8,
    pub truncated: bool,
    pub response_code: u16,
    pub queries: Seq<DnsQuestionView>,
    pub answers: Seq<DnsRecordView>,
}

impl View for DnsMessage {
    type V = DnsMessageView;
    open spec fn view(&self) -> DnsMessageView {
        DnsMessageView {
            id: self.id,
            is_response: self.is_response,
            op_code: self.op_code,
            truncated: self.truncated,
            response_code: self.response_code,
            queries: self.queries@.map_values(|q: DnsQuestion| q@),
            answers: self.answers@.map_values(|r: DnsRecord| r@),
        }
    }
}

pub const CLASS_IN: u16 = 1;

pub const RCODE_NO_ERROR: u16 = 0;

pub const RCODE_SERVFAIL: u16 = 2;

pub const RCODE_NXDOMAIN: u16 = 3;

/// What `Name::from_ascii` of `hickory-proto` makes of a text, as labels.
pub uninterp spec fn dns_name_of_text(text: Seq<char>) -> Option<DnsNameView>;

/// What `RecordType::from_str` of `hickory-proto` makes of a text, as its code.
pub uninterp spec fn record_type_of_text(text: Seq<char>) -> Option<u16>;

/// The bytes `hickory-proto` emits for a message with this ID, message type
/// (a response or a query), operation code and recursion-desired flag,
/// holding one question: a name parsed from this text, this record type and
/// class IN.
pub uninterp spec fn dns_query_bytes(
    id: u16,
    response: bool,
    op_code: u8,
    recursion_desired: bool,
    name_text: Seq<char>,
    record_type: u16,
) -> Option<Seq<u8>>;

/// The operation code of a standard query.
pub const DNS_OPCODE_QUERY: u8 = 0;

/// What `Message::from_bytes` of `hickory-proto` decodes from the bytes.
pub uninterp spec fn dns_decoded(bytes: Seq<u8>) -> Option<DnsMessageView>;

/// A name as `hickory-proto` holds it.
#[verifier::external_type_specification]
#[verifier::external_body]
pub struct ExName(Name);

/// A question as `hickory-proto` holds it.
#[verifier::external_type_specification]
#[verifier::external_body]
pub struct ExQuery(Query);

/// A message as `hickory-proto` holds it.
#[verifier::external_type_specification]
#[verifier::external_body]
pub struct ExMessage(Message);

/// Lists a name's labels (`Name::iter`) and its FQDN flag (`Name::is_fqdn`).
#[verifier::external_body]
fn dns_name_from(n: &Name) -> DnsName {
    DnsName { labels: n.iter().map(|l| l.to_vec()).collect(), fqdn: n.is_fqdn() }
}

/// Reads a question's name, type code and class code.
#[verifier::external_body]
fn dns_question_from(q: &Query) -> DnsQuestion {
    DnsQuestion { name: dns_name_from(q.name()), record_type: q.query_type().into(), class: q.query_class().into() }
}

/// Reads each answer record's owner name, type code and class code, and
/// renders its data with `Display`.
#[verifier::external_body]
fn dns_answers_from(m: &Message) -> Vec<DnsRecord> {
    let record = |a: &hickory_proto::rr::Record| DnsRecord {
        name: dns_name_from(a.name()),
        record_type: a.record_type().into(),
        class: a.dns_class().into(),
        rendered: a.data().to_string(),
    };
    m.answers().iter().map(record).collect()
}

/// Calls `Name::from_ascii` and lists the name's labels and FQDN flag.
#[verifier::external_body]
fn parse_dns_name(text: &str) -> (r: Option<DnsName>)
    ensures
        match r {
            Some(n) => dns_name_of_text(text@) == Some(n@),
            None => dns_name_of_text(text@) is None,
        },
{
    Name::from_ascii(text).ok().map(|n| dns_name_from(&n))
}

/// Calls `RecordType::from_str`, which expects no lowercase letters.
#[verifier::external_body]
fn parse_record_type(text: &str) -> (r: Option<u16>)
    requires
        forall|i: int| 0 <= i < text@.len() ==> !('a' <= #[trigger] text@[i] <= 'z'),
    ensures
        r == record_type_of_text(text@),
{
    text.parse::<RecordType>().ok().map(u16::from)
}

/// Builds the message with `Name::from_ascii`, `Query::query` and a
/// `Message` with these header fields, and emits it with
/// `BinEncodable::to_bytes`.
#[verifier::external_body]
fn encode_dns_query(id: u16, response: bool, op_code: u8, recursion_desired: bool, name_text: &str, record_type: u16)
    -> (r: Option<Vec<u8>>)
    ensures
        match r {
            Some(b) => dns_query_bytes(id, response, op_code, recursion_desired, name_text@, record_type) == Some(b@),
            None => dns_query_bytes(id, response, op_code, recursion_desired, name_text@, record_type) is None,
        },
{
    let name = Name::from_ascii(name_text).ok()?;
    let message_type = if response { MessageType::Response } else { MessageType::Query };
    let mut message = Message::new();
    message.set_id(id).set_message_type(message_type).set_op_code(OpCode::from_u8(op_code)).set_recursion_desired(recursion_desired);
    message.add_query(Query::query(name, RecordType::from(record_type)));
    message.to_bytes().ok()
}

/// Calls `Message::from_bytes` and lists the judged fields.
#[verifier::external_body]
fn decode_dns(bytes: &[u8]) -> (r: Option<DnsMessage>)
    ensures
        match r {
            Some(m) => dns_decoded(bytes@) == Some(m@),
            None => dns_decoded(bytes@) is None,
        },
{
    let m = Message::from_bytes(bytes).ok()?;
    Some(DnsMessage {
        id: m.id(),
        is_response: m.message_type() == MessageType::Response,
        op_code: m.op_code().into(),
        truncated: m.truncated(),
        response_code: m.response_code().into(),
        queries: m.queries().iter().map(dns_question_from).collect(),
        answers: dns_answers_from(&m),
    })
}

pub open spec fn lower_byte(b: u8) -> u8 {
    if 65 <= b <= 90 { (b + 32) as u8 } else { b }
}

/// Labels compare byte for byte, ASCII letters without regard to case.
pub open spec fn labels_equal(a: Seq<u8>, b: Seq<u8>) -> bool {
    a.len() == b.len() && forall|i: int| 0 <= i < a.len() ==> lower_byte(#[trigger] a[i]) == lower_byte(b[i])
}

/// DNS name equality: the same qualification and the same labels.
pub open spec fn names_equal(a: DnsNameView, b: DnsNameView) -> bool {
    &&& a.fqdn == b.fqdn
    &&& a.labels.len() == b.labels.len()
    &&& forall|i: int| 0 <= i < a.labels.len() ==> labels_equal(#[trigger] a.labels[i], b.labels[i])
}

fn lower_u8(b: u8) -> (r: u8)
    ensures
        r == lower_byte(b),
{
    if 65 <= b && b <= 90 { b + 32 } else { b }
}

fn label_eq(a: &Vec<u8>, b: &Vec<u8>) -> (r: bool)
    ensures
        r == labels_equal(a@, b@),
{
    if a.len() != b.len() {
        return false;
    }
    let mut i: usize = 0;
    while i < a.len()
        invariant
            a@.len() == b@.len(),
            i <= a@.len(),
            forall|j: int| 0 <= j < i ==> lower_byte(#[trigger] a@[j]) == lower_byte(b@[j]),
        decreases a@.len() - i,
    {
        if lower_u8(a[i]) != lower_u8(b[i]) {
            return false;
        }
        i = i + 1;
    }
    true
}

pub fn names_eq(a: &DnsName, b: &DnsName) -> (r: bool)
    ensures
        r == names_equal(a@, b@),
{
    if a.fqdn != b.fqdn || a.labels.len() != b.labels.len() {
        return false;
    }
    let mut i: usize = 0;
    while i < a.labels.len()
        invariant
            a.labels@.len() == b.labels@.len(),
            a.fqdn == b.fqdn,
            i <= a.labels@.len(),
            forall|j: int| 0 <= j < i ==> labels_equal(#[trigger] a@.labels[j], b@.labels[j]),
        decreases a.labels@.len() - i,
    {
        assert(a@.labels[i as int] == a.labels@[i as int]@);
        assert(b@.labels[i as int] == b.labels@[i as int]@);
        if !label_eq(&a.labels[i], &b.labels[i]) {
            return false;
        }
        i = i + 1;
    }
    true
}

/// The reply answers exactly the request: same ID, a response to a
/// standard query, and the single question asked (class IN).
pub open spec fn reply_matches(m: DnsMessageView, id: u16, name: DnsNameView, record_type: u16) -> bool {
    &&& m.id == id
    &&& m.is_response
    &&& m.op_code == 0
    &&& m.queries.len() == 1
    &&& names_equal(m.queries[0].name, name)
    &&& m.queries[0].record_type == record_type
    &&& m.queries[0].class == CLASS_IN
}

/// The rendered answers for the asked name, type and class IN.
pub open spec fn matching_answers(answers: Seq<DnsRecordView>, name: DnsNameView, record_type: u16) -> Seq<Seq<char>>
    decreases answers.len(),
{
    if answers.len() == 0 {
        Seq::empty()
    } else {
        let rest = matching_answers(answers.drop_last(), name, record_type);
        let a = answers.last();
        if names_equal(a.name, name) && a.record_type == record_type && a.class == CLASS_IN {
            rest.push(a.rendered)
        } else {
            rest
        }
    }
}

/// The outcome of a decoded reply.
pub open spec fn dns_reply_spec(m: DnsMessageView, id: u16, name: DnsNameView, record_type: u16, wanted: Seq<Seq<char>>) -> Outcome {
    if !reply_matches(m, id, name, record_type) || m.truncated {
        Outcome::MalformedResponse
    } else if m.response_code == RCODE_NXDOMAIN {
        Outcome::DnsNxDomain
    } else if m.response_code != RCODE_NO_ERROR {
        Outcome::DnsServerFailure
    } else if forall|w: int| 0 <= w < wanted.len() ==> matching_answers(m.answers, name, record_type).contains(#[trigger] wanted[w]) {
        Outcome::Success
    } else {
        Outcome::Violation
    }
}

/// Some answer record is for the asked name, type and class IN and renders as `w`.
pub open spec fn answered_with(answers: Seq<DnsRecordView>, name: DnsNameView, record_type: u16, w: Seq<char>) -> bool {
    exists|j: int| 0 <= j < answers.len() && names_equal((#[trigger] answers[j]).name, name) && answers[j].record_type == record_type
        && answers[j].class == CLASS_IN && answers[j].rendered == w
}

proof fn lemma_matching_answers_contain(answers: Seq<DnsRecordView>, name: DnsNameView, record_type: u16, w: Seq<char>)
    ensures
        matching_answers(answers, name, record_type).contains(w) <==> answered_with(answers, name, record_type, w),
    decreases answers.len(),
{
    if answers.len() > 0 {
        let init = answers.drop_last();
        let a = answers.last();
        lemma_matching_answers_contain(init, name, record_type, w);
        let rest = matching_answers(init, name, record_type);
        let here = names_equal(a.name, name) && a.record_type == record_type && a.class == CLASS_IN;
        if answered_with(answers, name, record_type, w) {
            let j = choose|j: int| 0 <= j < answers.len() && names_equal((#[trigger] answers[j]).name, name) && answers[j].record_type
                == record_type && answers[j].class == CLASS_IN && answers[j].rendered == w;
            if j < answers.len() - 1 {
                assert(init[j] == answers[j]);
                assert(answered_with(init, name, record_type, w));
                let k = choose|k: int| 0 <= k < rest.len() && rest[k] == w;
                if here {
                    assert(rest.push(a.rendered)[k] == w);
                }
            } else {
                assert(rest.push(a.rendered)[rest.len() as int] == w);
            }
        }
        if matching_answers(answers, name, record_type).contains(w) {
            let full = matching_answers(answers, name, record_type);
            let k = choose|k: int| 0 <= k < full.len() && full[k] == w;
            if here && k == rest.len() {
                assert(answers[answers.len() - 1] == a);
            } else {
                if here {
                    assert(full[k] == rest[k]);
                }
                assert(rest.contains(w));
                let j = choose|j: int| 0 <= j < init.len() && names_equal((#[trigger] init[j]).name, name) && init[j].record_type
                    == record_type && init[j].class == CLASS_IN && init[j].rendered == w;
                assert(answers[j] == init[j]);
            }
        }
    }
}

/// Law: a DNS reply is a success exactly when it answers the request
/// completely without error and every expected value is rendered by some
/// answer record for the asked name, type and class IN; one expected value
/// missing from the answers makes a well-formed, error-free reply a
/// violation.
pub proof fn lemma_dns_success_needs_every_expected_answer(
    m: DnsMessageView,
    id: u16,
    name: DnsNameView,
    record_type: u16,
    wanted: Seq<Seq<char>>,
)
    ensures
        dns_reply_spec(m, id, name, record_type, wanted) == Outcome::Success <==> reply_matches(m, id, name, record_type) && !m.truncated
            && m.response_code == RCODE_NO_ERROR && forall|w: int| 0 <= w < wanted.len() ==> answered_with(
            m.answers,
            name,
            record_type,
            #[trigger] wanted[w],
        ),
        reply_matches(m, id, name, record_type) && !m.truncated && m.response_code == RCODE_NO_ERROR && (exists|w: int|
            0 <= w < wanted.len() && !answered_with(m.answers, name, record_type, #[trigger] wanted[w])) ==> dns_reply_spec(
            m,
            id,
            name,
            record_type,
            wanted,
        ) == Outcome::Violation,
        !reply_matches(m, id, name, record_type) || m.truncated ==> dns_reply_spec(m, id, name, record_type, wanted)
            == Outcome::MalformedResponse,
        reply_matches(m, id, name, record_type) && !m.truncated && m.response_code == RCODE_NXDOMAIN ==> dns_reply_spec(
            m,
            id,
            name,
            record_type,
            wanted,
        ) == Outcome::DnsNxDomain,
        reply_matches(m, id, name, record_type) && !m.truncated && m.response_code != RCODE_NXDOMAIN && m.response_code
            != RCODE_NO_ERROR ==> dns_reply_spec(m, id, name, record_type, wanted) == Outcome::DnsServerFailure,
        m.id != id || !m.is_response || m.queries.len() != 1 ==> dns_reply_spec(m, id, name, record_type, wanted)
            == Outcome::MalformedResponse,
{
    assert forall|w: int| 0 <= w < wanted.len() implies (matching_answers(m.answers, name, record_type).contains(#[trigger] wanted[w])
        <==> answered_with(m.answers, name, record_type, wanted[w])) by {
        lemma_matching_answers_contain(m.answers, name, record_type, wanted[w]);
    }
}

fn collect_answers(m: &DnsMessage, name: &DnsName, record_type: u16) -> (r: Vec<String>)
    ensures
        view_strings(r@) == matching_answers(m@.answers, name@, record_type),
{
    let mut out: Vec<String> = Vec::new();
    let mut i: usize = 0;
    while i < m.answers.len()
        invariant
            i <= m.answers@.len(),
            view_strings(out@) == matching_answers(m@.answers.subrange(0, i as int), name@, record_type),
        decreases m.answers@.len() - i,
    {
        let a = &m.answers[i];
        proof {
            let p = m@.answers.subrange(0, i + 1);
            assert(p.drop_last() =~= m@.answers.subrange(0, i as int));
            assert(p.last() == a@);
        }
        if names_eq(&a.name, name) && a.record_type == record_type && a.class == CLASS_IN {
            out.push(a.rendered.clone());
            assert(view_strings(out@) =~= matching_answers(m@.answers.subrange(0, i + 1), name@, record_type));
        } else {
            assert(view_strings(out@) =~= matching_answers(m@.answers.subrange(0, i + 1), name@, record_type));
        }
        i = i + 1;
    }
    assert(m@.answers.subrange(0, m@.answers.len() as int) =~= m@.answers);
    out
}

/// Judges a decoded reply: it must answer exactly the request and be
/// complete; NXDOMAIN and server failures are their own outcomes; success
/// needs every expected answer among the matching records.
pub fn judge_dns_message(m: &DnsMessage, id: u16, name: &DnsName, record_type: u16, wanted: &Vec<String>) -> (r: (Outcome, String))
    ensures
        r.0 == dns_reply_spec(m@, id, name@, record_type, view_strings(wanted@)),
{
    let matches = m.id == id && m.is_response && m.op_code == 0 && m.queries.len() == 1 && names_eq(&m.queries[0].name, name)
        && m.queries[0].record_type == record_type && m.queries[0].class == CLASS_IN;
    proof {
        if m.queries@.len() == 1 {
            assert(m@.queries[0] == m.queries@[0]@);
        }
    }
    if !matches {
        return (Outcome::MalformedResponse, "DNS response does not exactly match request".to_string());
    }
    if m.truncated {
        return (Outcome::MalformedResponse, "DNS response is truncated; refusing incomplete answer set".to_string());
    }
    if m.response_code == RCODE_NXDOMAIN {
        return (Outcome::DnsNxDomain, "DNS server returned NXDOMAIN".to_string());
    }
    if m.response_code == RCODE_SERVFAIL {
        return (Outcome::DnsServerFailure, "DNS server returned SERVFAIL".to_string());
    }
    if m.response_code != RCODE_NO_ERROR {
        return (Outcome::DnsServerFailure, "DNS server returned an error response code".to_string());
    }
    let actual = collect_answers(m, name, record_type);
    let ghost act = view_strings(actual@);
    let mut w: usize = 0;
    while w < wanted.len()
        invariant
            act == view_strings(actual@),
            act == matching_answers(m@.answers, name@, record_type),
            reply_matches(m@, id, name@, record_type),
            !m.truncated,
            m.response_code == RCODE_NO_ERROR,
            w <= wanted@.len(),
            forall|k: int| 0 <= k < w ==> act.contains(#[trigger] view_strings(wanted@)[k]),
        decreases wanted@.len() - w,
    {
        if !crate::text::strings_contain(&actual, &wanted[w]) {
            assert(!act.contains(view_strings(wanted@)[w as int]));
            return (Outcome::Violation, "DNS answers did not include expected values".to_string());
        }
        w = w + 1;
    }
    (Outcome::Success, "DNS response matched requested answers".to_string())
}

/// Decodes and judges a reply; bytes that do not decode are malformed.
pub fn judge_dns_reply(bytes: &[u8], id: u16, name: &DnsName, record_type: u16, wanted: &Vec<String>) -> (r: (Outcome, String))
    ensures
        r.0 == match dns_decoded(bytes@) {
            None => Outcome::MalformedResponse,
            Some(m) => dns_reply_spec(m, id, name@, record_type, view_strings(wanted@)),
        },
{
    match decode_dns(bytes) {
        None => (Outcome::MalformedResponse, "DNS decode failed".to_string()),
        Some(m) => judge_dns_message(&m, id, name, record_type, wanted),
    }
}

/// A prepared DNS request: the parsed name, the record type's code and the
/// query bytes.
pub struct DnsRequest {
    pub name: DnsName,
    pub record_type: u16,
    pub bytes: Vec<u8>,
}

pub open spec fn has_lowercase(s: Seq<char>) -> bool {
    exists|i: int| 0 <= i < s.len() && 'a' <= #[trigger] s[i] <= 'z'
}

/// Prepares the query for an expected answer: a name or record type the
/// codec does not accept (record types are upper case) is unsupported;
/// a query it cannot emit is malformed.
pub fn dns_request(name: &str, record_type: &str, id: u16) -> (r: Result<DnsRequest, (Outcome, String)>)
    ensures
        match r {
            Ok(q) => dns_name_of_text(name@) == Some(q.name@) && !has_lowercase(record_type@)
                && record_type_of_text(record_type@) == Some(q.record_type)
                && dns_query_bytes(id, false, DNS_OPCODE_QUERY, false, name@, q.record_type) == Some(q.bytes@),
            Err(e) => (e.0 == Outcome::Unsupported && (dns_name_of_text(name@) is None || has_lowercase(record_type@)
                || record_type_of_text(record_type@) is None))
                || (e.0 == Outcome::MalformedResponse && dns_name_of_text(name@) is Some && !has_lowercase(record_type@)
                && (record_type_of_text(record_type@) matches Some(t) && dns_query_bytes(id, false, DNS_OPCODE_QUERY, false, name@, t)
                is None)),
        },
{
    let parsed = match parse_dns_name(name) {
        Some(n) => n,
        None => {
            return Err((Outcome::Unsupported, "invalid DNS name".to_string()));
        },
    };
    let cs = crate::text::chars_of(record_type);
    let mut i: usize = 0;
    while i < cs.len()
        invariant
            cs@ == record_type@,
            i <= cs@.len(),
            forall|j: int| 0 <= j < i ==> !('a' <= #[trigger] cs@[j] <= 'z'),
        decreases cs@.len() - i,
    {
        if 'a' <= cs[i] && cs[i] <= 'z' {
            return Err((Outcome::Unsupported, "unsupported DNS record type".to_string()));
        }
        i = i + 1;
    }
    let t = match parse_record_type(record_type) {
        Some(t) => t,
        None => {
            return Err((Outcome::Unsupported, "unsupported DNS record type".to_string()));
        },
    };
    // A standard query with recursion not desired: the resolver probed must
    // answer from its own data.
    match encode_dns_query(id, false, DNS_OPCODE_QUERY, false, name, t) {
        Some(bytes) => Ok(DnsRequest { name: parsed, record_type: t, bytes }),
        None => Err((Outcome::MalformedResponse, "DNS query could not be encoded".to_string())),
    }
}

} // verus!

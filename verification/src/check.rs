//! Independent structural and concrete coverage checking of assurance plans.
//! The controller obtains the context from its own admitted revision and
//! profile records, never from the submitted plan.
use crate::assurance::{
    AssurancePlan, AssurancePlanView, Claim, ClaimView, DeviceProfile, DeviceProfileView, Endpoint, Expectation, ExpectationView, IpFamily, Primitive,
    ProbeRequirement, ProbeRequirementView, ProbeSpec, ProbeSpecView, UciFieldForm, parse_interface_address,
    parse_interface_address_spec, view_claims, view_opt_string, view_probes, view_profiles,
};
use crate::net::{parse_ip, parse_ip_spec, IpAddr};
use crate::graph::{acyclic, edges_in_range, is_acyclic, view_graph};
use crate::protocol::{RevisionRef, RevisionRefView, PROTOCOL_VERSION};
use crate::state::{sensitive_field, sensitive_field_spec};
use crate::text::{
    byte_len, chars_of, has_control, has_control_spec, is_control, is_control_spec, is_whitespace, is_whitespace_spec,
    is_word, str_empty, str_len, strings_contain, strings_unique, view_strings, word_ident, word_ident_exec,
};
use vstd::prelude::*;

verus! {

#[derive(Debug, Clone, PartialEq, Eq)]
pub struct CheckError {
    pub code: &'static str,
    pub subject: String,
    pub explanation: String,
}

impl CheckError {
    /// The error as text: its code, subject and explanation.
    pub fn message(&self) -> (r: String)
        ensures
            r@ == self.code@ + ": "@ + self.subject@ + ": "@ + self.explanation@,
    {
        let a = crate::protocol::concat_str(self.code, ": ");
        let b = crate::protocol::concat_str(a.as_str(), self.subject.as_str());
        let c = crate::protocol::concat_str(b.as_str(), ": ");
        crate::protocol::concat_str(c.as_str(), self.explanation.as_str())
    }
}

fn error(code: &'static str, subject: &String, explanation: &str) -> (r: CheckError)
    ensures
        r.code == code,
        r.subject@ == subject@,
{
    CheckError { code, subject: subject.clone(), explanation: explanation.to_string() }
}

/// The probe kinds that read device-local state rather than the network.
pub open spec fn is_local(p: Primitive) -> bool {
    p == Primitive::UciReadback || p == Primitive::NetifdState
}

pub open spec fn probe_identity_ok(p: ProbeSpecView) -> bool {
    &&& p.id.len() > 0
    &&& p.device.device_id.len() > 0
    &&& p.device.profile_digest.len() > 0
    &&& p.source.witness_id.len() > 0
    &&& p.source.location.len() > 0
}

pub open spec fn interface_name_ok(s: Seq<char>) -> bool {
    s.len() > 0 && byte_len(s) <= 64 && !has_control_spec(s)
}

pub open spec fn probe_source_ok(p: ProbeSpecView) -> bool {
    &&& !p.source.bind_address.is_unspecified_spec()
    &&& !p.source.bind_address.is_multicast_spec()
    &&& (p.source.interface matches Some(s) ==> interface_name_ok(s))
}

pub open spec fn probe_limits_ok(p: ProbeSpecView) -> bool {
    &&& 0 < p.limits.timeout_ms <= 60_000
    &&& 0 < p.limits.max_response_bytes <= 1_048_576
    &&& 0 < p.limits.max_attempts <= 3
    &&& p.limits.timeout_ms <= p.interval_ms <= 86_400_000
}

pub open spec fn endpoint_ok(p: ProbeSpecView) -> bool {
    match p.endpoint {
        None => is_local(p.primitive),
        Some(e) => {
            &&& !is_local(p.primitive)
            &&& !e.address.is_unspecified_spec()
            &&& !e.address.is_multicast_spec()
            &&& e.address.is_ipv4_spec() == (e.family == IpFamily::V4)
            &&& e.address.is_ipv4_spec() == p.source.bind_address.is_ipv4_spec()
            &&& if p.primitive == Primitive::Icmp { e.port is None } else { e.port matches Some(port) && port != 0 }
        },
    }
}

pub open spec fn allowed_package(s: Seq<char>) -> bool {
    s == seq!['n', 'e', 't', 'w', 'o', 'r', 'k'] || s == seq!['d', 'h', 'c', 'p']
        || s == seq!['f', 'i', 'r', 'e', 'w', 'a', 'l', 'l'] || s == seq!['w', 'i', 'r', 'e', 'l', 'e', 's', 's']
}

pub open spec fn answer_matches_family(a: Seq<char>, v4: bool) -> bool {
    parse_ip_spec(a) matches Some(ip) && ip.is_ipv4_spec() == v4
}

pub open spec fn dns_ok(name: Seq<char>, record_type: Seq<char>, answers: Seq<Seq<char>>) -> bool {
    &&& name.len() > 0
    &&& byte_len(name) <= 253
    &&& !has_control_spec(name)
    &&& (record_type == seq!['A'] || record_type == seq!['A', 'A', 'A', 'A'])
    &&& answers.len() > 0
    &&& forall|i: int| 0 <= i < answers.len() ==> answer_matches_family(#[trigger] answers[i], record_type == seq!['A'])
}

pub open spec fn forbidden_host_char(c: char) -> bool {
    is_whitespace_spec(c) || is_control_spec(c) || c == '/' || c == '@' || c == ':' || c == '#' || c == '?' || c == '\\'
}

pub open spec fn http_ok(scheme: Seq<char>, host: Seq<char>, path: Seq<char>, status: u16) -> bool {
    &&& (scheme == seq!['h', 't', 't', 'p'] || scheme == seq!['h', 't', 't', 'p', 's'])
    &&& host.len() > 0
    &&& forall|i: int| 0 <= i < host.len() ==> !forbidden_host_char(#[trigger] host[i])
    &&& path.len() > 0 && path[0] == '/'
    &&& !(path.len() > 1 && path[1] == '/')
    &&& !has_control_spec(path)
    &&& 100 <= status <= 599
}

pub open spec fn uci_value_text_ok(v: Seq<char>) -> bool {
    byte_len(v) <= 4096 && !has_control_spec(v)
}

pub open spec fn uci_value_ok(package: Seq<char>, section: Seq<char>, option: Seq<char>, form: UciFieldForm, values: Seq<Seq<char>>) -> bool {
    &&& allowed_package(package)
    &&& word_ident(section, 128)
    &&& word_ident(option, 128)
    &&& match form {
        UciFieldForm::Scalar => values.len() == 1,
        UciFieldForm::OrderedList => values.len() > 0,
        UciFieldForm::Absent => values.len() == 0,
    }
    &&& forall|i: int| 0 <= i < values.len() ==> uci_value_text_ok(#[trigger] values[i])
    &&& !sensitive_field_spec(option)
}

pub open spec fn netifd_ok(interface: Seq<char>, addresses: Seq<Seq<char>>) -> bool {
    &&& interface_name_ok(interface)
    &&& forall|i: int| 0 <= i < addresses.len() ==> parse_interface_address_spec(#[trigger] addresses[i]) is Some
}

/// The primitive and its expectation agree, and the expectation is concrete.
pub open spec fn expectation_ok(p: ProbeSpecView) -> bool {
    match (p.primitive, p.expectation) {
        (Primitive::TcpConnect, ExpectationView::TcpConnected) => true,
        (Primitive::Icmp, ExpectationView::IcmpEcho) => true,
        (Primitive::UdpDns, ExpectationView::DnsAnswer { name, record_type, answers }) => dns_ok(name, record_type, answers),
        (Primitive::TcpDns, ExpectationView::DnsAnswer { name, record_type, answers }) => dns_ok(name, record_type, answers),
        (Primitive::Http, ExpectationView::HttpStatus { scheme, host, path, status }) => http_ok(scheme, host, path, status),
        (Primitive::UciReadback, ExpectationView::UciValue { package, section, option, form, values }) =>
            uci_value_ok(package, section, option, form, values),
        (Primitive::UciReadback, ExpectationView::UciSection { package, section, section_type }) =>
            allowed_package(package) && word_ident(section, 128) && word_ident(section_type, 128),
        (Primitive::NetifdState, ExpectationView::NetifdInterface { interface, addresses, .. }) =>
            netifd_ok(interface, addresses),
        _ => false,
    }
}

pub enum ProbeVerdict {
    Valid,
    Binding,
    Limits,
}

/// The first failing class of checks for a probe, in the order identity and
/// source binding, resource limits, endpoint, expectation.
pub open spec fn probe_verdict(p: ProbeSpecView) -> ProbeVerdict {
    if !probe_identity_ok(p) || !probe_source_ok(p) {
        ProbeVerdict::Binding
    } else if !probe_limits_ok(p) {
        ProbeVerdict::Limits
    } else if !endpoint_ok(p) || !expectation_ok(p) {
        ProbeVerdict::Binding
    } else {
        ProbeVerdict::Valid
    }
}

pub open spec fn valid_probe(p: ProbeSpecView) -> bool {
    probe_verdict(p) is Valid
}

/// Law: a valid probe is fully bound and its endpoint fits its primitive.
/// It names its probe, device, profile, witness and source location; a
/// device-local read (UCI readback, netifd state) has no network endpoint
/// and every other primitive has one, concrete, in the explicit family of
/// the source address, with a port exactly when it is not ICMP; and its
/// expectation is the one its primitive checks.
pub proof fn lemma_valid_probe_binding(p: ProbeSpecView)
    ensures
        valid_probe(p) ==> p.id.len() > 0 && p.device.device_id.len() > 0 && p.device.profile_digest.len() > 0
            && p.source.witness_id.len() > 0 && p.source.location.len() > 0,
        valid_probe(p) ==> ((p.primitive == Primitive::UciReadback || p.primitive == Primitive::NetifdState) <==> p.endpoint is None),
        valid_probe(p) ==> (p.endpoint matches Some(e) ==> !e.address.is_unspecified_spec() && !e.address.is_multicast_spec()
            && e.address.is_ipv4_spec() == (e.family == IpFamily::V4) && e.address.is_ipv4_spec() == p.source.bind_address.is_ipv4_spec()
            && (p.primitive == Primitive::Icmp <==> e.port is None) && (e.port matches Some(port) ==> port != 0)),
        valid_probe(p) ==> match p.primitive {
            Primitive::TcpConnect => p.expectation is TcpConnected,
            Primitive::Icmp => p.expectation is IcmpEcho,
            Primitive::UdpDns | Primitive::TcpDns => p.expectation is DnsAnswer,
            Primitive::Http => p.expectation is HttpStatus,
            Primitive::UciReadback => p.expectation is UciValue || p.expectation is UciSection,
            Primitive::NetifdState => p.expectation is NetifdInterface,
        },
        valid_probe(p) ==> (p.expectation matches ExpectationView::UciValue { form, values, .. } ==> (form == UciFieldForm::Scalar
            ==> values.len() == 1) && (form == UciFieldForm::Absent ==> values.len() == 0)),
{
}

/// Law: a valid probe has bounded limits, and its interval is never shorter
/// than its timeout: 0 < timeout <= 60 s, timeout <= interval <= one day,
/// 0 < response bytes <= 1 MiB and 0 < attempts <= 3. A probe whose binding
/// is complete but whose interval is shorter than its timeout, or longer
/// than a day, is refused for its limits.
pub proof fn lemma_valid_probe_limits(p: ProbeSpecView)
    ensures
        valid_probe(p) ==> 0 < p.limits.timeout_ms <= 60_000 && p.limits.timeout_ms <= p.interval_ms && p.interval_ms <= 86_400_000
            && 0 < p.limits.max_response_bytes <= 1_048_576 && 0 < p.limits.max_attempts <= 3,
        probe_identity_ok(p) && probe_source_ok(p) && (p.interval_ms < p.limits.timeout_ms || p.interval_ms > 86_400_000
            || p.limits.timeout_ms == 0 || p.limits.timeout_ms > 60_000) ==> probe_verdict(p) is Limits,
{
}

fn dns_expectation_ok(name: &String, record_type: &String, answers: &Vec<String>) -> (r: bool)
    ensures
        r == dns_ok(name@, record_type@, view_strings(answers@)),
{
    if str_empty(name) || str_len(name) > 253 || has_control(name.as_str()) {
        return false;
    }
    let a = is_word(record_type.as_str(), &['A']);
    let aaaa = is_word(record_type.as_str(), &['A', 'A', 'A', 'A']);
    assert(['A']@ =~= seq!['A']);
    assert(['A', 'A', 'A', 'A']@ =~= seq!['A', 'A', 'A', 'A']);
    if !(a || aaaa) || answers.len() == 0 {
        return false;
    }
    let mut i: usize = 0;
    while i < answers.len()
        invariant
            i <= answers@.len(),
            a == (record_type@ == seq!['A']),
            forall|j: int| 0 <= j < i ==> answer_matches_family(#[trigger] view_strings(answers@)[j], a),
        decreases answers@.len() - i,
    {
        match parse_ip(answers[i].as_str()) {
            Some(ip) => {
                if ip.is_ipv4() != a {
                    assert(!answer_matches_family(view_strings(answers@)[i as int], a));
                    return false;
                }
            },
            None => {
                assert(!answer_matches_family(view_strings(answers@)[i as int], a));
                return false;
            },
        }
        i = i + 1;
    }
    true
}

fn http_expectation_ok(scheme: &String, host: &String, path: &String, status: u16) -> (r: bool)
    ensures
        r == http_ok(scheme@, host@, path@, status),
{
    let s1 = is_word(scheme.as_str(), &['h', 't', 't', 'p']);
    let s2 = is_word(scheme.as_str(), &['h', 't', 't', 'p', 's']);
    assert(['h', 't', 't', 'p']@ =~= seq!['h', 't', 't', 'p']);
    assert(['h', 't', 't', 'p', 's']@ =~= seq!['h', 't', 't', 'p', 's']);
    if !(s1 || s2) {
        return false;
    }
    let h = chars_of(host.as_str());
    if h.len() == 0 {
        return false;
    }
    let mut i: usize = 0;
    while i < h.len()
        invariant
            h@ == host@,
            i <= h@.len(),
            forall|j: int| 0 <= j < i ==> !forbidden_host_char(#[trigger] h@[j]),
        decreases h@.len() - i,
    {
        let c = h[i];
        if is_whitespace(c) || is_control(c) || c == '/' || c == '@' || c == ':' || c == '#' || c == '?' || c == '\\' {
            return false;
        }
        i = i + 1;
    }
    let pc = chars_of(path.as_str());
    if pc.len() == 0 || pc[0] != '/' {
        return false;
    }
    if pc.len() > 1 && pc[1] == '/' {
        return false;
    }
    !has_control(path.as_str()) && 100 <= status && status <= 599
}

fn allowed_package_exec(package: &String) -> (r: bool)
    ensures
        r == allowed_package(package@),
{
    let w1 = ['n', 'e', 't', 'w', 'o', 'r', 'k'];
    let w2 = ['d', 'h', 'c', 'p'];
    let w3 = ['f', 'i', 'r', 'e', 'w', 'a', 'l', 'l'];
    let w4 = ['w', 'i', 'r', 'e', 'l', 'e', 's', 's'];
    assert(w1@ =~= seq!['n', 'e', 't', 'w', 'o', 'r', 'k']);
    assert(w2@ =~= seq!['d', 'h', 'c', 'p']);
    assert(w3@ =~= seq!['f', 'i', 'r', 'e', 'w', 'a', 'l', 'l']);
    assert(w4@ =~= seq!['w', 'i', 'r', 'e', 'l', 'e', 's', 's']);
    is_word(package.as_str(), &w1) || is_word(package.as_str(), &w2) || is_word(package.as_str(), &w3)
        || is_word(package.as_str(), &w4)
}

fn uci_value_expectation_ok(package: &String, section: &String, option: &String, form: UciFieldForm, values: &Vec<String>) -> (r: bool)
    ensures
        r == uci_value_ok(package@, section@, option@, form, view_strings(values@)),
{
    if !allowed_package_exec(package) || !word_ident_exec(section.as_str(), 128) || !word_ident_exec(option.as_str(), 128) {
        return false;
    }
    let count_ok = match form {
        UciFieldForm::Scalar => values.len() == 1,
        UciFieldForm::OrderedList => values.len() > 0,
        UciFieldForm::Absent => values.len() == 0,
    };
    if !count_ok {
        return false;
    }
    let mut i: usize = 0;
    while i < values.len()
        invariant
            i <= values@.len(),
            forall|j: int| 0 <= j < i ==> uci_value_text_ok(#[trigger] view_strings(values@)[j]),
        decreases values@.len() - i,
    {
        if str_len(&values[i]) > 4096 || has_control(values[i].as_str()) {
            assert(!uci_value_text_ok(view_strings(values@)[i as int]));
            return false;
        }
        i = i + 1;
    }
    !sensitive_field(option.as_str())
}

fn netifd_expectation_ok(interface: &String, addresses: &Vec<String>) -> (r: bool)
    ensures
        r == netifd_ok(interface@, view_strings(addresses@)),
{
    if str_empty(interface) || str_len(interface) > 64 || has_control(interface.as_str()) {
        return false;
    }
    let mut i: usize = 0;
    while i < addresses.len()
        invariant
            i <= addresses@.len(),
            forall|j: int| 0 <= j < i ==> parse_interface_address_spec(#[trigger] view_strings(addresses@)[j]) is Some,
        decreases addresses@.len() - i,
    {
        if parse_interface_address(addresses[i].as_str()).is_none() {
            assert(view_strings(addresses@)[i as int] == addresses@[i as int]@);
            return false;
        }
        i = i + 1;
    }
    true
}

fn expectation_exec(p: &ProbeSpec) -> (r: bool)
    ensures
        r == expectation_ok(p@),
{
    match (p.primitive, &p.expectation) {
        (Primitive::TcpConnect, Expectation::TcpConnected) => true,
        (Primitive::Icmp, Expectation::IcmpEcho) => true,
        (Primitive::UdpDns, Expectation::DnsAnswer { name, record_type, answers }) => dns_expectation_ok(name, record_type, answers),
        (Primitive::TcpDns, Expectation::DnsAnswer { name, record_type, answers }) => dns_expectation_ok(name, record_type, answers),
        (Primitive::Http, Expectation::HttpStatus { scheme, host, path, status }) => http_expectation_ok(scheme, host, path, *status),
        (Primitive::UciReadback, Expectation::UciValue { package, section, option, form, values }) =>
            uci_value_expectation_ok(package, section, option, *form, values),
        (Primitive::UciReadback, Expectation::UciSection { package, section, section_type }) =>
            allowed_package_exec(package) && word_ident_exec(section.as_str(), 128) && word_ident_exec(section_type.as_str(), 128),
        (Primitive::NetifdState, Expectation::NetifdInterface { interface, addresses, .. }) =>
            netifd_expectation_ok(interface, addresses),
        _ => false,
    }
}

fn endpoint_exec(p: &ProbeSpec) -> (r: bool)
    ensures
        r == endpoint_ok(p@),
{
    let local = p.primitive == Primitive::UciReadback || p.primitive == Primitive::NetifdState;
    match &p.endpoint {
        None => local,
        Some(e) => {
            if local {
                return false;
            }
            if e.address.is_unspecified() || e.address.is_multicast()
                || (e.address.is_ipv4() != (e.family == IpFamily::V4))
                || e.address.is_ipv4() != p.source.bind_address.is_ipv4() {
                return false;
            }
            if p.primitive == Primitive::Icmp {
                e.port.is_none()
            } else {
                match e.port {
                    Some(port) => port != 0,
                    None => false,
                }
            }
        },
    }
}

/// Validates one probe's bindings, limits, endpoint and expectation.
pub fn validate_probe(p: &ProbeSpec) -> (r: Result<(), CheckError>)
    ensures
        r is Ok <==> valid_probe(p@),
        r is Ok ==> 0 < p.limits.timeout_ms <= p.interval_ms <= 86_400_000,
        r matches Err(e) ==> e.subject@ == p.id@ && (
            (e.code == "probe.limits" && probe_verdict(p@) is Limits)
            || (e.code == "probe.binding" && probe_verdict(p@) is Binding)),
{
    if str_empty(&p.id) || str_empty(&p.device.device_id) || str_empty(&p.device.profile_digest)
        || str_empty(&p.source.witness_id) || str_empty(&p.source.location) {
        return Err(error("probe.binding", &p.id, "A device/profile, witness identity and source location are required"));
    }
    let iface_bad = match &p.source.interface {
        Some(s) => str_empty(s) || str_len(s) > 64 || has_control(s.as_str()),
        None => false,
    };
    if p.source.bind_address.is_unspecified() || p.source.bind_address.is_multicast() || iface_bad {
        return Err(error("probe.binding", &p.id, "Use a concrete source address and valid interface binding"));
    }
    if p.limits.timeout_ms == 0 || p.limits.timeout_ms > 60_000 || p.limits.max_response_bytes == 0
        || p.limits.max_response_bytes > 1_048_576 || p.limits.max_attempts == 0 || p.limits.max_attempts > 3
        || p.interval_ms < p.limits.timeout_ms || p.interval_ms > 86_400_000 {
        return Err(error("probe.limits", &p.id, "Set bounded timeout, response bytes, attempts and interval"));
    }
    if !endpoint_exec(p) {
        return Err(error("probe.binding", &p.id, "Probe endpoint, source address family and transport port must agree"));
    }
    if !expectation_exec(p) {
        return Err(error("probe.binding", &p.id, "Primitive and concrete expectation do not agree"));
    }
    Ok(())
}

/// What the controller knows independently of the submitted plan.
pub struct CoverageContext<'a> {
    pub revision: &'a RevisionRef,
    pub epoch: u64,
    pub graph_version: u64,
    pub profiles: &'a [DeviceProfile],
    pub claims: &'a [Claim],
    pub now_ms: u64,
}

pub struct CoverageContextView {
    pub revision: RevisionRefView,
    pub epoch: u64,
    pub graph_version: u64,
    pub profiles: Seq<DeviceProfileView>,
    pub claims: Seq<ClaimView>,
    pub now_ms: u64,
}

impl<'a> View for CoverageContext<'a> {
    type V = CoverageContextView;
    open spec fn view(&self) -> CoverageContextView {
        CoverageContextView {
            revision: self.revision@,
            epoch: self.epoch,
            graph_version: self.graph_version,
            profiles: view_profiles(self.profiles@),
            claims: view_claims(self.claims@),
            now_ms: self.now_ms,
        }
    }
}

/// A plan that passed coverage checking, borrowed so that it cannot change
/// behind the verdict. It conveys coverage only, not deployment authorization.
pub struct CheckedPlan<'a>(&'a AssurancePlan);

impl<'a> CheckedPlan<'a> {
    pub closed spec fn inner(&self) -> AssurancePlan {
        *self.0
    }

    pub fn plan(&self) -> (r: &'a AssurancePlan)
        ensures
            *r == self.inner(),
    {
        self.0
    }
}

pub open spec fn revision_current(p: AssurancePlanView, c: CoverageContextView) -> bool {
    &&& p.version == PROTOCOL_VERSION
    &&& p.id.len() > 0
    &&& p.epoch == c.epoch
    &&& p.graph_version == c.graph_version
    &&& p.revision == c.revision
}

pub open spec fn profile_fresh(pr: DeviceProfileView, now: u64) -> bool {
    &&& pr.version == PROTOCOL_VERSION
    &&& pr.device.device_id.len() > 0
    &&& pr.device.profile_digest.len() > 0
    &&& pr.observed_at_ms <= now
    &&& now < pr.expires_at_ms
    &&& pr.observed_at_ms < pr.expires_at_ms
}

/// Profile `i` is current and names a device no earlier profile names.
pub open spec fn profile_ok(ps: Seq<DeviceProfileView>, i: int, now: u64) -> bool {
    &&& profile_fresh(ps[i], now)
    &&& forall|j: int| 0 <= j < i ==> (#[trigger] ps[j]).device.device_id != ps[i].device.device_id
}

pub open spec fn profiles_valid(ps: Seq<DeviceProfileView>, now: u64) -> bool {
    forall|i: int| 0 <= i < ps.len() ==> #[trigger] profile_ok(ps, i, now)
}

pub open spec fn has_device(ps: Seq<DeviceProfileView>, d: Seq<char>) -> bool {
    exists|k: int| 0 <= k < ps.len() && (#[trigger] ps[k]).device.device_id == d
}

/// Claim `i` is supported, concrete, uniquely named and bound to a profiled device.
pub open spec fn claim_ok(cs: Seq<ClaimView>, i: int, ps: Seq<DeviceProfileView>) -> bool {
    &&& cs[i].unsupported_reason is None
    &&& cs[i].id.len() > 0
    &&& cs[i].kind.len() > 0
    &&& cs[i].requirements.len() > 0
    &&& forall|j: int| 0 <= j < i ==> (#[trigger] cs[j]).id != cs[i].id
    &&& has_device(ps, cs[i].device_id)
}

pub open spec fn claims_valid(cs: Seq<ClaimView>, ps: Seq<DeviceProfileView>) -> bool {
    forall|i: int| 0 <= i < cs.len() ==> #[trigger] claim_ok(cs, i, ps)
}

/// A probe meets a requirement when primitive, source, endpoint and
/// expectation all agree.
pub open spec fn matches_requirement(p: ProbeSpecView, r: ProbeRequirementView) -> bool {
    &&& p.primitive == r.primitive
    &&& p.source == r.source
    &&& p.endpoint == r.endpoint
    &&& p.expectation == r.expectation
}

pub open spec fn has_claim(cs: Seq<ClaimView>, id: Seq<char>) -> bool {
    exists|k: int| 0 <= k < cs.len() && (#[trigger] cs[k]).id == id
}

/// Every claim named `id` is on the probe's device and has a requirement the probe meets.
pub open spec fn binding_ok(cs: Seq<ClaimView>, p: ProbeSpecView, id: Seq<char>) -> bool {
    forall|k: int| 0 <= k < cs.len() && (#[trigger] cs[k]).id == id ==> {
        &&& cs[k].device_id == p.device.device_id
        &&& exists|m: int| 0 <= m < cs[k].requirements.len() && matches_requirement(p, #[trigger] cs[k].requirements[m])
    }
}

pub open spec fn claim_bound(cs: Seq<ClaimView>, p: ProbeSpecView, id: Seq<char>) -> bool {
    has_claim(cs, id) && binding_ok(cs, p, id)
}

/// Every profile of the probe's device carries the probe's binding and primitive.
pub open spec fn profile_supports(ps: Seq<DeviceProfileView>, p: ProbeSpecView) -> bool {
    forall|k: int| 0 <= k < ps.len() && (#[trigger] ps[k]).device.device_id == p.device.device_id ==> {
        &&& ps[k].device == p.device
        &&& ps[k].supported_primitives.contains(p.primitive)
    }
}

pub open spec fn probe_claims_ok(p: ProbeSpecView) -> bool {
    p.claims.len() > 0 && p.claims.no_duplicates()
}

/// Probe `i` is valid, uniquely named, supported by its device's profile and
/// bound to claims it concretely satisfies.
pub open spec fn probe_ok(plan: AssurancePlanView, i: int) -> bool {
    let p = plan.probes[i];
    &&& valid_probe(p)
    &&& forall|j: int| 0 <= j < i ==> (#[trigger] plan.probes[j]).id != p.id
    &&& has_device(plan.profiles, p.device.device_id)
    &&& profile_supports(plan.profiles, p)
    &&& probe_claims_ok(p)
    &&& forall|m: int| 0 <= m < p.claims.len() ==> claim_bound(plan.claims, p, #[trigger] p.claims[m])
}

pub open spec fn probes_valid(plan: AssurancePlanView) -> bool {
    forall|i: int| 0 <= i < plan.probes.len() ==> #[trigger] probe_ok(plan, i)
}

pub open spec fn covers(p: ProbeSpecView, c: ClaimView, r: ProbeRequirementView) -> bool {
    p.claims.contains(c.id) && p.device.device_id == c.device_id && matches_requirement(p, r)
}

/// Every requirement of claim `i` is met by a probe bound to it on its device.
pub open spec fn claim_covered(plan: AssurancePlanView, i: int) -> bool {
    forall|m: int| 0 <= m < plan.claims[i].requirements.len() ==> #[trigger] requirement_covered(plan, i, m)
}

pub open spec fn requirement_covered(plan: AssurancePlanView, i: int, m: int) -> bool {
    exists|j: int| 0 <= j < plan.probes.len() && covers(#[trigger] plan.probes[j], plan.claims[i], plan.claims[i].requirements[m])
}

pub open spec fn coverage_complete(plan: AssurancePlanView) -> bool {
    forall|i: int| 0 <= i < plan.claims.len() ==> #[trigger] claim_covered(plan, i)
}

pub open spec fn has_probe(ps: Seq<ProbeSpecView>, id: Seq<char>) -> bool {
    exists|j: int| 0 <= j < ps.len() && (#[trigger] ps[j]).id == id
}

pub open spec fn deps_ok(ps: Seq<ProbeSpecView>, i: int) -> bool {
    &&& ps[i].depends_on.no_duplicates()
    &&& forall|k: int| 0 <= k < ps[i].depends_on.len() ==> has_probe(ps, #[trigger] ps[i].depends_on[k])
}

pub open spec fn deps_valid(ps: Seq<ProbeSpecView>) -> bool {
    forall|i: int| 0 <= i < ps.len() ==> #[trigger] deps_ok(ps, i)
}

pub open spec fn probe_index(ps: Seq<ProbeSpecView>, id: Seq<char>) -> int {
    choose|j: int| 0 <= j < ps.len() && (#[trigger] ps[j]).id == id
}

/// Probe `i` depends on the probes named in its `depends_on`, by position.
pub open spec fn dependency_graph(ps: Seq<ProbeSpecView>) -> Seq<Seq<usize>> {
    Seq::new(
        ps.len(),
        |i: int| Seq::new(ps[i].depends_on.len(), |k: int| probe_index(ps, ps[i].depends_on[k]) as usize),
    )
}

/// Everything `check_plan` accepts.
pub open spec fn plan_valid(plan: AssurancePlanView, ctx: CoverageContextView) -> bool {
    &&& revision_current(plan, ctx)
    &&& plan.claims == ctx.claims
    &&& plan.claims.len() > 0
    &&& plan.profiles == ctx.profiles
    &&& profiles_valid(plan.profiles, ctx.now_ms)
    &&& claims_valid(plan.claims, plan.profiles)
    &&& probes_valid(plan)
    &&& coverage_complete(plan)
    &&& deps_valid(plan.probes)
    &&& acyclic(dependency_graph(plan.probes))
}

/// The error for a failing probe `i`: the first failing check among probe
/// validity, unique ID, profile presence, profile support, claim list shape
/// and, per named claim in order, its presence and concrete match.
pub open spec fn probe_fault(plan: AssurancePlanView, i: int, code: &str, subject: Seq<char>) -> bool {
    let p = plan.probes[i];
    if !valid_probe(p) {
        &&& subject == p.id
        &&& probe_verdict(p) is Limits ==> code == "probe.limits"
        &&& probe_verdict(p) is Binding ==> code == "probe.binding"
    } else if exists|j: int| 0 <= j < i && (#[trigger] plan.probes[j]).id == p.id {
        code == "plan.probe-duplicate" && subject == p.id
    } else if !has_device(plan.profiles, p.device.device_id) {
        code == "plan.profile-missing" && subject == p.id
    } else if !profile_supports(plan.profiles, p) {
        code == "plan.primitive-unsupported" && subject == p.id
    } else if !probe_claims_ok(p) {
        code == "plan.probe-claims" && subject == p.id
    } else {
        exists|m: int| {
            &&& 0 <= m < p.claims.len()
            &&& forall|n: int| 0 <= n < m ==> claim_bound(plan.claims, p, #[trigger] p.claims[n])
            &&& !claim_bound(plan.claims, p, p.claims[m])
            &&& subject == p.claims[m]
            &&& if !has_claim(plan.claims, p.claims[m]) { code == "plan.claim-missing" } else { code == "plan.expectation" }
        }
    }
}

/// The error `check_plan` reports: the stage that fails first, and within a
/// stage the first failing item in plan order.
pub open spec fn plan_fault(plan: AssurancePlanView, ctx: CoverageContextView, code: &str, subject: Seq<char>) -> bool {
    if !revision_current(plan, ctx) {
        code == "plan.revision" && subject == plan.id
    } else if plan.claims != ctx.claims || plan.claims.len() == 0 {
        code == "plan.claims" && subject == plan.id
    } else if plan.profiles != ctx.profiles {
        code == "plan.profiles" && subject == plan.id
    } else if !profiles_valid(plan.profiles, ctx.now_ms) {
        exists|i: int| {
            &&& 0 <= i < plan.profiles.len()
            &&& forall|j: int| 0 <= j < i ==> #[trigger] profile_ok(plan.profiles, j, ctx.now_ms)
            &&& !profile_ok(plan.profiles, i, ctx.now_ms)
            &&& code == "plan.profile-invalid"
            &&& subject == plan.profiles[i].device.device_id
        }
    } else if !claims_valid(plan.claims, plan.profiles) {
        exists|i: int| {
            &&& 0 <= i < plan.claims.len()
            &&& forall|j: int| 0 <= j < i ==> #[trigger] claim_ok(plan.claims, j, plan.profiles)
            &&& !claim_ok(plan.claims, i, plan.profiles)
            &&& subject == plan.claims[i].id
            &&& if plan.claims[i].unsupported_reason is Some { code == "plan.unsupported" } else { code == "plan.claim-invalid" }
        }
    } else if !probes_valid(plan) {
        exists|i: int| {
            &&& 0 <= i < plan.probes.len()
            &&& forall|j: int| 0 <= j < i ==> #[trigger] probe_ok(plan, j)
            &&& !probe_ok(plan, i)
            &&& probe_fault(plan, i, code, subject)
        }
    } else if !coverage_complete(plan) {
        exists|i: int| {
            &&& 0 <= i < plan.claims.len()
            &&& forall|j: int| 0 <= j < i ==> #[trigger] claim_covered(plan, j)
            &&& !claim_covered(plan, i)
            &&& code == "plan.uncovered"
            &&& subject == plan.claims[i].id
        }
    } else if !deps_valid(plan.probes) {
        exists|i: int| {
            &&& 0 <= i < plan.probes.len()
            &&& forall|j: int| 0 <= j < i ==> #[trigger] deps_ok(plan.probes, j)
            &&& !deps_ok(plan.probes, i)
            &&& code == "plan.dependency"
            &&& subject == plan.probes[i].id
        }
    } else if !acyclic(dependency_graph(plan.probes)) {
        code == "plan.cycle" && subject == plan.id
    } else {
        false
    }
}

fn revision_current_exec(plan: &AssurancePlan, ctx: &CoverageContext) -> (r: bool)
    ensures
        r == revision_current(plan@, ctx@),
{
    plan.version == PROTOCOL_VERSION && !str_empty(&plan.id) && plan.epoch == ctx.epoch
        && plan.graph_version == ctx.graph_version && plan.revision.same(ctx.revision)
}

fn profiles_equal(a: &Vec<DeviceProfile>, b: &[DeviceProfile]) -> (r: bool)
    ensures
        r == (view_profiles(a@) == view_profiles(b@)),
{
    if a.len() != b.len() {
        proof {
            if view_profiles(a@) == view_profiles(b@) {
                assert(view_profiles(a@).len() == view_profiles(b@).len());
            }
        }
        return false;
    }
    let mut i: usize = 0;
    while i < a.len()
        invariant
            a@.len() == b@.len(),
            i <= a@.len(),
            forall|j: int| 0 <= j < i ==> a@[j]@ == b@[j]@,
        decreases a@.len() - i,
    {
        if !a[i].same(&b[i]) {
            proof {
                if view_profiles(a@) == view_profiles(b@) {
                    assert(view_profiles(a@)[i as int] == view_profiles(b@)[i as int]);
                }
            }
            return false;
        }
        i = i + 1;
    }
    assert(view_profiles(a@) =~= view_profiles(b@));
    true
}

fn claims_equal(a: &Vec<Claim>, b: &[Claim]) -> (r: bool)
    ensures
        r == (view_claims(a@) == view_claims(b@)),
{
    if a.len() != b.len() {
        proof {
            if view_claims(a@) == view_claims(b@) {
                assert(view_claims(a@).len() == view_claims(b@).len());
            }
        }
        return false;
    }
    let mut i: usize = 0;
    while i < a.len()
        invariant
            a@.len() == b@.len(),
            i <= a@.len(),
            forall|j: int| 0 <= j < i ==> a@[j]@ == b@[j]@,
        decreases a@.len() - i,
    {
        if !a[i].same(&b[i]) {
            proof {
                if view_claims(a@) == view_claims(b@) {
                    assert(view_claims(a@)[i as int] == view_claims(b@)[i as int]);
                }
            }
            return false;
        }
        i = i + 1;
    }
    assert(view_claims(a@) =~= view_claims(b@));
    true
}

/// The first profile that is stale, future-dated, incomplete or a duplicate.
fn first_bad_profile(ps: &Vec<DeviceProfile>, now: u64) -> (r: Option<usize>)
    ensures
        match r {
            None => profiles_valid(view_profiles(ps@), now),
            Some(i) => i < ps@.len() && !profile_ok(view_profiles(ps@), i as int, now)
                && forall|j: int| 0 <= j < i ==> #[trigger] profile_ok(view_profiles(ps@), j, now),
        },
{
    let ghost pv = view_profiles(ps@);
    let mut i: usize = 0;
    while i < ps.len()
        invariant
            pv == view_profiles(ps@),
            i <= ps@.len(),
            forall|j: int| 0 <= j < i ==> #[trigger] profile_ok(pv, j, now),
        decreases ps@.len() - i,
    {
        let p = &ps[i];
        assert(pv[i as int] == p@);
        let fresh = p.version == PROTOCOL_VERSION && !str_empty(&p.device.device_id)
            && !str_empty(&p.device.profile_digest) && p.observed_at_ms <= now && now < p.expires_at_ms
            && p.observed_at_ms < p.expires_at_ms;
        if !fresh {
            return Some(i);
        }
        let mut j: usize = 0;
        while j < i
            invariant
                pv == view_profiles(ps@),
                i < ps@.len(),
                j <= i,
                forall|k: int| 0 <= k < j ==> (#[trigger] pv[k]).device.device_id != pv[i as int].device.device_id,
                forall|k: int| 0 <= k < i ==> #[trigger] profile_ok(pv, k, now),
            decreases i - j,
        {
            if ps[j].device.device_id == ps[i].device.device_id {
                assert(pv[j as int].device.device_id == pv[i as int].device.device_id);
                return Some(i);
            }
            j = j + 1;
        }
        assert(profile_ok(pv, i as int, now));
        i = i + 1;
    }
    None
}

/// The first claim that is unsupported, incomplete, duplicated or not on a profiled device.
fn first_bad_claim(cs: &Vec<Claim>, ps: &Vec<DeviceProfile>) -> (r: Option<usize>)
    ensures
        match r {
            None => claims_valid(view_claims(cs@), view_profiles(ps@)),
            Some(i) => i < cs@.len() && !claim_ok(view_claims(cs@), i as int, view_profiles(ps@))
                && forall|j: int| 0 <= j < i ==> #[trigger] claim_ok(view_claims(cs@), j, view_profiles(ps@)),
        },
{
    let ghost cv = view_claims(cs@);
    let ghost pv = view_profiles(ps@);
    let mut i: usize = 0;
    while i < cs.len()
        invariant
            cv == view_claims(cs@),
            pv == view_profiles(ps@),
            i <= cs@.len(),
            forall|j: int| 0 <= j < i ==> #[trigger] claim_ok(cv, j, pv),
        decreases cs@.len() - i,
    {
        let c = &cs[i];
        assert(cv[i as int] == c@);
        if c.unsupported_reason.is_some() || str_empty(&c.id) || str_empty(&c.kind) || c.requirements.len() == 0 {
            return Some(i);
        }
        let mut j: usize = 0;
        while j < i
            invariant
                cv == view_claims(cs@),
                pv == view_profiles(ps@),
                i < cs@.len(),
                j <= i,
                forall|k: int| 0 <= k < j ==> (#[trigger] cv[k]).id != cv[i as int].id,
                forall|k: int| 0 <= k < i ==> #[trigger] claim_ok(cv, k, pv),
            decreases i - j,
        {
            if cs[j].id == cs[i].id {
                assert(cv[j as int].id == cv[i as int].id);
                return Some(i);
            }
            j = j + 1;
        }
        match find_profile(ps, &c.device_id) {
            None => {
                return Some(i);
            },
            Some(k) => {
                assert(pv[k as int].device.device_id == cv[i as int].device_id);
            },
        }
        assert(claim_ok(cv, i as int, pv));
        i = i + 1;
    }
    None
}

/// The position of the profile for device `d`.
fn find_profile(ps: &Vec<DeviceProfile>, d: &String) -> (r: Option<usize>)
    ensures
        match r {
            None => !has_device(view_profiles(ps@), d@),
            Some(k) => k < ps@.len() && ps@[k as int].device.device_id@ == d@,
        },
{
    let mut k: usize = 0;
    while k < ps.len()
        invariant
            k <= ps@.len(),
            forall|j: int| 0 <= j < k ==> (#[trigger] ps@[j]).device.device_id@ != d@,
        decreases ps@.len() - k,
    {
        if ps[k].device.device_id == *d {
            return Some(k);
        }
        k = k + 1;
    }
    proof {
        let pv = view_profiles(ps@);
        if has_device(pv, d@) {
            let k = choose|k: int| 0 <= k < pv.len() && (#[trigger] pv[k]).device.device_id == d@;
            assert(ps@[k].device.device_id@ != d@);
        }
    }
    None
}

proof fn lemma_profile_unique(ps: Seq<DeviceProfileView>, now: u64, a: int, b: int)
    requires
        profiles_valid(ps, now),
        0 <= a < ps.len(),
        0 <= b < ps.len(),
        ps[a].device.device_id == ps[b].device.device_id,
    ensures
        a == b,
{
    if a < b {
        assert(profile_ok(ps, b, now));
        assert(ps[a].device.device_id != ps[b].device.device_id);
    } else if b < a {
        assert(profile_ok(ps, a, now));
        assert(ps[b].device.device_id != ps[a].device.device_id);
    }
}

proof fn lemma_claim_unique(cs: Seq<ClaimView>, ps: Seq<DeviceProfileView>, a: int, b: int)
    requires
        claims_valid(cs, ps),
        0 <= a < cs.len(),
        0 <= b < cs.len(),
        cs[a].id == cs[b].id,
    ensures
        a == b,
{
    if a < b {
        assert(claim_ok(cs, b, ps));
        assert(cs[a].id != cs[b].id);
    } else if b < a {
        assert(claim_ok(cs, a, ps));
        assert(cs[b].id != cs[a].id);
    }
}

fn primitives_contain(v: &Vec<Primitive>, x: Primitive) -> (r: bool)
    ensures
        r == v@.contains(x),
{
    let mut i: usize = 0;
    while i < v.len()
        invariant
            i <= v@.len(),
            forall|j: int| 0 <= j < i ==> v@[j] != x,
        decreases v@.len() - i,
    {
        if v[i] == x {
            assert(v@[i as int] == x);
            return true;
        }
        i = i + 1;
    }
    false
}

fn matches_exec(p: &ProbeSpec, r: &ProbeRequirement) -> (b: bool)
    ensures
        b == matches_requirement(p@, r@),
{
    p.primitive == r.primitive && p.source.same(&r.source) && p.endpoint == r.endpoint
        && p.expectation.same(&r.expectation)
}

fn any_requirement_met(p: &ProbeSpec, rs: &Vec<ProbeRequirement>) -> (b: bool)
    ensures
        b == exists|m: int| 0 <= m < rs@.len() && matches_requirement(p@, #[trigger] rs@[m]@),
{
    let mut i: usize = 0;
    while i < rs.len()
        invariant
            i <= rs@.len(),
            forall|j: int| 0 <= j < i ==> !matches_requirement(p@, #[trigger] rs@[j]@),
        decreases rs@.len() - i,
    {
        if matches_exec(p, &rs[i]) {
            return true;
        }
        i = i + 1;
    }
    false
}

/// The position of the claim named `id`.
fn find_claim(cs: &Vec<Claim>, id: &String) -> (r: Option<usize>)
    ensures
        match r {
            None => !has_claim(view_claims(cs@), id@),
            Some(k) => k < cs@.len() && cs@[k as int].id@ == id@,
        },
{
    let mut k: usize = 0;
    while k < cs.len()
        invariant
            k <= cs@.len(),
            forall|j: int| 0 <= j < k ==> (#[trigger] cs@[j]).id@ != id@,
        decreases cs@.len() - k,
    {
        if cs[k].id == *id {
            return Some(k);
        }
        k = k + 1;
    }
    proof {
        let cv = view_claims(cs@);
        if has_claim(cv, id@) {
            let k = choose|k: int| 0 <= k < cv.len() && (#[trigger] cv[k]).id == id@;
            assert(cs@[k].id@ != id@);
        }
    }
    None
}

/// Checks probe `i` of a plan whose profiles and claims are already valid.
#[verifier::rlimit(30)]
fn check_probe(plan: &AssurancePlan, i: usize, now: u64) -> (r: Result<(), CheckError>)
    requires
        i < plan.probes@.len(),
        profiles_valid(plan@.profiles, now),
        claims_valid(plan@.claims, plan@.profiles),
    ensures
        r is Ok <==> probe_ok(plan@, i as int),
        r matches Err(e) ==> probe_fault(plan@, i as int, e.code, e.subject@),
{
    let ghost pl = plan@;
    let p = &plan.probes[i];
    assert(pl.probes[i as int] == p@);
    match validate_probe(p) {
        Err(e) => {
            return Err(e);
        },
        Ok(()) => {},
    }
    let mut j: usize = 0;
    while j < i
        invariant
            pl == plan@,
            i < plan.probes@.len(),
            p == &plan.probes@[i as int],
            valid_probe(p@),
            j <= i,
            forall|k: int| 0 <= k < j ==> (#[trigger] pl.probes[k]).id != p@.id,
        decreases i - j,
    {
        if plan.probes[j].id == p.id {
            assert(pl.probes[j as int].id == p@.id);
            return Err(error("plan.probe-duplicate", &p.id, "Probe IDs must be unique"));
        }
        j = j + 1;
    }
    let k = match find_profile(&plan.profiles, &p.device.device_id) {
        None => {
            return Err(error("plan.profile-missing", &p.id, "No current profile for probe"));
        },
        Some(k) => k,
    };
    let prof = &plan.profiles[k];
    assert(pl.profiles[k as int] == prof@);
    if !prof.device.same(&p.device) || !primitives_contain(&prof.supported_primitives, p.primitive) {
        return Err(error(
            "plan.primitive-unsupported",
            &p.id,
            "Profile does not support this primitive or binding is stale",
        ));
    }
    assert(profile_supports(pl.profiles, p@)) by {
        assert forall|k2: int| 0 <= k2 < pl.profiles.len() && (#[trigger] pl.profiles[k2]).device.device_id
            == p@.device.device_id implies pl.profiles[k2].device == p@.device
            && pl.profiles[k2].supported_primitives.contains(p@.primitive) by {
            lemma_profile_unique(pl.profiles, now, k2, k as int);
        }
    }
    if p.claims.len() == 0 || !strings_unique(&p.claims) {
        return Err(error("plan.probe-claims", &p.id, "Probe needs unique claim bindings"));
    }
    let mut m: usize = 0;
    while m < p.claims.len()
        invariant
            pl == plan@,
            i < plan.probes@.len(),
            p == &plan.probes@[i as int],
            pl.probes[i as int] == p@,
            claims_valid(pl.claims, pl.profiles),
            valid_probe(p@),
            forall|k: int| 0 <= k < i ==> (#[trigger] pl.probes[k]).id != p@.id,
            has_device(pl.profiles, p@.device.device_id),
            profile_supports(pl.profiles, p@),
            probe_claims_ok(p@),
            m <= p.claims@.len(),
            forall|n: int| 0 <= n < m ==> claim_bound(pl.claims, p@, #[trigger] p@.claims[n]),
        decreases p.claims@.len() - m,
    {
        let id = &p.claims[m];
        assert(p@.claims[m as int] == id@);
        match find_claim(&plan.claims, id) {
            None => {
                return Err(error("plan.claim-missing", id, "Probe references an absent claim"));
            },
            Some(ci) => {
                let c = &plan.claims[ci];
                assert(pl.claims[ci as int] == c@);
                if c.device_id != p.device.device_id || !any_requirement_met(p, &c.requirements) {
                    proof {
                        assert(pl.claims[ci as int].requirements == c@.requirements);
                        if binding_ok(pl.claims, p@, id@) {
                            assert(pl.claims[ci as int].id == id@);
                            let mm = choose|mm: int| 0 <= mm < pl.claims[ci as int].requirements.len()
                                && matches_requirement(p@, #[trigger] pl.claims[ci as int].requirements[mm]);
                            assert(c.requirements@[mm]@ == pl.claims[ci as int].requirements[mm]);
                        }
                    }
                    return Err(error(
                        "plan.expectation",
                        id,
                        "Probe does not match the claim's concrete endpoint, source and expectation",
                    ));
                }
                proof {
                    assert(has_claim(pl.claims, id@)) by {
                        assert(pl.claims[ci as int].id == id@);
                    }
                    assert forall|k2: int| 0 <= k2 < pl.claims.len() && (#[trigger] pl.claims[k2]).id == id@ implies {
                        &&& pl.claims[k2].device_id == p@.device.device_id
                        &&& exists|mm: int| 0 <= mm < pl.claims[k2].requirements.len()
                            && matches_requirement(p@, #[trigger] pl.claims[k2].requirements[mm])
                    } by {
                        lemma_claim_unique(pl.claims, pl.profiles, k2, ci as int);
                        let mm = choose|mm: int| 0 <= mm < c.requirements@.len()
                            && matches_requirement(p@, #[trigger] c.requirements@[mm]@);
                        assert(pl.claims[k2].requirements[mm] == c.requirements@[mm]@);
                    }
                }
            },
        }
        m = m + 1;
    }
    Ok(())
}

fn covers_exec(p: &ProbeSpec, c: &Claim, r: &ProbeRequirement) -> (b: bool)
    ensures
        b == covers(p@, c@, r@),
{
    strings_contain(&p.claims, &c.id) && p.device.device_id == c.device_id && matches_exec(p, r)
}

/// A probe that is bound to claim `c` on its device and meets requirement `r`.
fn find_cover(plan: &AssurancePlan, c: &Claim, r: &ProbeRequirement) -> (res: Option<usize>)
    ensures
        match res {
            None => forall|q: int| 0 <= q < plan@.probes.len() ==> !covers(#[trigger] plan@.probes[q], c@, r@),
            Some(j) => j < plan@.probes.len() && covers(plan@.probes[j as int], c@, r@),
        },
{
    let ghost pl = plan@;
    let mut j: usize = 0;
    while j < plan.probes.len()
        invariant
            pl == plan@,
            j <= plan.probes@.len(),
            forall|q: int| 0 <= q < j ==> !covers(#[trigger] pl.probes[q], c@, r@),
        decreases plan.probes@.len() - j,
    {
        assert(pl.probes[j as int] == plan.probes@[j as int]@);
        if covers_exec(&plan.probes[j], c, r) {
            return Some(j);
        }
        j = j + 1;
    }
    None
}

/// The first claim with a requirement that no bound probe meets.
fn first_uncovered(plan: &AssurancePlan) -> (r: Option<usize>)
    ensures
        match r {
            None => coverage_complete(plan@),
            Some(i) => i < plan.claims@.len() && !claim_covered(plan@, i as int)
                && forall|j: int| 0 <= j < i ==> #[trigger] claim_covered(plan@, j),
        },
{
    let ghost pl = plan@;
    let mut i: usize = 0;
    while i < plan.claims.len()
        invariant
            pl == plan@,
            i <= plan.claims@.len(),
            forall|j: int| 0 <= j < i ==> #[trigger] claim_covered(pl, j),
        decreases plan.claims@.len() - i,
    {
        let c = &plan.claims[i];
        assert(pl.claims[i as int] == c@);
        let mut m: usize = 0;
        while m < c.requirements.len()
            invariant
                pl == plan@,
                i < plan.claims@.len(),
                c == &plan.claims@[i as int],
                pl.claims[i as int] == c@,
                m <= c.requirements@.len(),
                forall|j: int| 0 <= j < i ==> #[trigger] claim_covered(pl, j),
                forall|n: int| 0 <= n < m ==> #[trigger] requirement_covered(pl, i as int, n),
            decreases c.requirements@.len() - m,
        {
            let r = &c.requirements[m];
            assert(pl.claims[i as int].requirements[m as int] == r@);
            match find_cover(plan, c, r) {
                None => {
                    proof {
                        if claim_covered(pl, i as int) {
                            assert(requirement_covered(pl, i as int, m as int));
                            let q = choose|q: int| 0 <= q < pl.probes.len()
                                && covers(#[trigger] pl.probes[q], pl.claims[i as int], pl.claims[i as int].requirements[m as int]);
                            assert(!covers(pl.probes[q], c@, r@));
                        }
                    }
                    return Some(i);
                },
                Some(j) => {
                    assert(covers(pl.probes[j as int], pl.claims[i as int], pl.claims[i as int].requirements[m as int]));
                    assert(requirement_covered(pl, i as int, m as int));
                },
            }
            m = m + 1;
        }
        assert(claim_covered(pl, i as int)) by {
            assert(c@.requirements.len() == c.requirements@.len());
        }
        i = i + 1;
    }
    None
}

/// The position of the probe named `id`.
fn find_probe(ps: &Vec<ProbeSpec>, id: &String) -> (r: Option<usize>)
    ensures
        match r {
            None => !has_probe(view_probes(ps@), id@),
            Some(k) => k < ps@.len() && ps@[k as int].id@ == id@,
        },
{
    let mut k: usize = 0;
    while k < ps.len()
        invariant
            k <= ps@.len(),
            forall|j: int| 0 <= j < k ==> (#[trigger] ps@[j]).id@ != id@,
        decreases ps@.len() - k,
    {
        if ps[k].id == *id {
            return Some(k);
        }
        k = k + 1;
    }
    proof {
        let pv = view_probes(ps@);
        if has_probe(pv, id@) {
            let k = choose|k: int| 0 <= k < pv.len() && (#[trigger] pv[k]).id == id@;
            assert(ps@[k].id@ != id@);
        }
    }
    None
}

/// The first probe with a repeated or unknown dependency.
fn first_bad_deps(ps: &Vec<ProbeSpec>) -> (r: Option<usize>)
    ensures
        match r {
            None => deps_valid(view_probes(ps@)),
            Some(i) => i < ps@.len() && !deps_ok(view_probes(ps@), i as int)
                && forall|j: int| 0 <= j < i ==> #[trigger] deps_ok(view_probes(ps@), j),
        },
{
    let ghost pv = view_probes(ps@);
    let mut i: usize = 0;
    while i < ps.len()
        invariant
            pv == view_probes(ps@),
            i <= ps@.len(),
            forall|j: int| 0 <= j < i ==> #[trigger] deps_ok(pv, j),
        decreases ps@.len() - i,
    {
        let p = &ps[i];
        assert(pv[i as int] == p@);
        if !strings_unique(&p.depends_on) {
            return Some(i);
        }
        let mut k: usize = 0;
        while k < p.depends_on.len()
            invariant
                pv == view_probes(ps@),
                i < ps@.len(),
                p == &ps@[i as int],
                pv[i as int] == p@,
                k <= p.depends_on@.len(),
                forall|j: int| 0 <= j < i ==> #[trigger] deps_ok(pv, j),
                forall|n: int| 0 <= n < k ==> has_probe(pv, #[trigger] pv[i as int].depends_on[n]),
            decreases p.depends_on@.len() - k,
        {
            assert(pv[i as int].depends_on[k as int] == p.depends_on@[k as int]@);
            match find_probe(ps, &p.depends_on[k]) {
                None => {
                    return Some(i);
                },
                Some(idx) => {
                    assert(pv[idx as int].id == pv[i as int].depends_on[k as int]);
                },
            }
            k = k + 1;
        }
        assert(deps_ok(pv, i as int));
        i = i + 1;
    }
    None
}

pub open spec fn probe_ids_distinct(ps: Seq<ProbeSpecView>) -> bool {
    forall|a: int, b: int| 0 <= a < ps.len() && 0 <= b < ps.len() && (#[trigger] ps[a]).id == (#[trigger] ps[b]).id ==> a == b
}

proof fn lemma_probe_ids_distinct(plan: AssurancePlanView)
    requires
        probes_valid(plan),
    ensures
        probe_ids_distinct(plan.probes),
{
    assert forall|a: int, b: int| 0 <= a < plan.probes.len() && 0 <= b < plan.probes.len()
        && (#[trigger] plan.probes[a]).id == (#[trigger] plan.probes[b]).id implies a == b by {
        if a < b {
            assert(probe_ok(plan, b));
        } else if b < a {
            assert(probe_ok(plan, a));
        }
    }
}

/// The dependency graph by position: probe `i` points at each probe it depends on.
fn dependency_lists(ps: &Vec<ProbeSpec>) -> (g: Vec<Vec<usize>>)
    requires
        deps_valid(view_probes(ps@)),
        probe_ids_distinct(view_probes(ps@)),
    ensures
        view_graph(g@) == dependency_graph(view_probes(ps@)),
        edges_in_range(view_graph(g@)),
{
    let ghost pv = view_probes(ps@);
    let mut g: Vec<Vec<usize>> = Vec::new();
    let mut i: usize = 0;
    while i < ps.len()
        invariant
            pv == view_probes(ps@),
            deps_valid(pv),
            probe_ids_distinct(pv),
            i <= ps@.len(),
            g@.len() == i,
            forall|a: int| 0 <= a < i ==> (#[trigger] g@[a])@ == dependency_graph(pv)[a],
        decreases ps@.len() - i,
    {
        let p = &ps[i];
        assert(pv[i as int] == p@);
        assert(deps_ok(pv, i as int));
        let mut row: Vec<usize> = Vec::new();
        let mut k: usize = 0;
        while k < p.depends_on.len()
            invariant
                pv == view_probes(ps@),
                probe_ids_distinct(pv),
                i < ps@.len(),
                p == &ps@[i as int],
                pv[i as int] == p@,
                deps_ok(pv, i as int),
                k <= p.depends_on@.len(),
                row@.len() == k,
                forall|n: int| 0 <= n < k ==> (#[trigger] row@[n]) as int == probe_index(pv, pv[i as int].depends_on[n]),
            decreases p.depends_on@.len() - k,
        {
            assert(pv[i as int].depends_on[k as int] == p.depends_on@[k as int]@);
            assert(has_probe(pv, pv[i as int].depends_on[k as int]));
            match find_probe(ps, &p.depends_on[k]) {
                None => {
                    assert(false);
                },
                Some(idx) => {
                    proof {
                        let dep = pv[i as int].depends_on[k as int];
                        let w = probe_index(pv, dep);
                        assert(pv[idx as int].id == dep);
                        assert(0 <= w < pv.len() && pv[w].id == dep);
                        assert(idx as int == w);
                    }
                    row.push(idx);
                },
            }
            k = k + 1;
        }
        assert(row@ =~= dependency_graph(pv)[i as int]);
        g.push(row);
        i = i + 1;
    }
    assert(view_graph(g@) =~= dependency_graph(pv)) by {
        assert forall|a: int| 0 <= a < g@.len() implies view_graph(g@)[a] == dependency_graph(pv)[a] by {
            assert(g@[a]@ == dependency_graph(pv)[a]);
        }
    }
    assert forall|a: int, b: int| 0 <= a < view_graph(g@).len() && 0 <= b < view_graph(g@)[a].len()
        implies (#[trigger] view_graph(g@)[a][b]) < view_graph(g@).len() by {
        let dep = pv[a].depends_on[b];
        assert(deps_ok(pv, a));
        assert(has_probe(pv, dep));
        let w = probe_index(pv, dep);
        assert(0 <= w < pv.len());
    }
    g
}

/// Checks a submitted plan against the controller's own revision, epoch,
/// profile and claim records: the plan must be current, carry exactly the
/// authoritative claims and profiles, bind every probe to a supported
/// primitive and to claims it concretely satisfies, cover every requirement
/// of every claim, and have a complete acyclic dependency graph.
#[verifier::rlimit(50)]
pub fn check_plan<'a>(plan: &'a AssurancePlan, ctx: &CoverageContext) -> (r: Result<CheckedPlan<'a>, CheckError>)
    ensures
        r is Ok <==> plan_valid(plan@, ctx@),
        r matches Ok(c) ==> c.inner() == *plan,
        r matches Err(e) ==> plan_fault(plan@, ctx@, e.code, e.subject@),
{
    let ghost pl = plan@;
    if !revision_current_exec(plan, ctx) {
        return Err(error("plan.revision", &plan.id, "Plan version, revision, epoch or graph version is not current"));
    }
    if !claims_equal(&plan.claims, ctx.claims) || plan.claims.len() == 0 {
        return Err(error("plan.claims", &plan.id, "Plan must contain every authoritative compiler claim exactly"));
    }
    if !profiles_equal(&plan.profiles, ctx.profiles) {
        return Err(error("plan.profiles", &plan.id, "Plan profile set differs from current device capabilities"));
    }
    match first_bad_profile(&plan.profiles, ctx.now_ms) {
        Some(i) => {
            return Err(error(
                "plan.profile-invalid",
                &plan.profiles[i].device.device_id,
                "Duplicate, missing, stale or future-dated profile",
            ));
        },
        None => {},
    }
    match first_bad_claim(&plan.claims, &plan.profiles) {
        Some(i) => {
            let c = &plan.claims[i];
            assert(pl.claims[i as int] == c@);
            match &c.unsupported_reason {
                Some(reason) => {
                    return Err(error("plan.unsupported", &c.id, reason.as_str()));
                },
                None => {
                    return Err(error(
                        "plan.claim-invalid",
                        &c.id,
                        "Claim lacks concrete requirements/current profile or has a duplicate ID",
                    ));
                },
            }
        },
        None => {},
    }
    let mut i: usize = 0;
    while i < plan.probes.len()
        invariant
            pl == plan@,
            revision_current(pl, ctx@),
            pl.claims == ctx@.claims,
            pl.claims.len() > 0,
            pl.profiles == ctx@.profiles,
            profiles_valid(pl.profiles, ctx.now_ms),
            claims_valid(pl.claims, pl.profiles),
            i <= plan.probes@.len(),
            forall|j: int| 0 <= j < i ==> #[trigger] probe_ok(pl, j),
        decreases plan.probes@.len() - i,
    {
        match check_probe(plan, i, ctx.now_ms) {
            Err(e) => {
                return Err(e);
            },
            Ok(()) => {},
        }
        i = i + 1;
    }
    match first_uncovered(plan) {
        Some(i) => {
            return Err(error(
                "plan.uncovered",
                &plan.claims[i].id,
                "Add the missing concrete probe with the required source, endpoint and expectation",
            ));
        },
        None => {},
    }
    match first_bad_deps(&plan.probes) {
        Some(i) => {
            let p = &plan.probes[i];
            if !strings_unique(&p.depends_on) {
                return Err(error("plan.dependency", &p.id, "Duplicate dependency"));
            }
            return Err(error("plan.dependency", &p.id, "Missing dependency"));
        },
        None => {},
    }
    proof {
        lemma_probe_ids_distinct(pl);
    }
    let g = dependency_lists(&plan.probes);
    if !is_acyclic(&g) {
        return Err(error("plan.cycle", &plan.id, "Assurance dependencies contain a cycle"));
    }
    Ok(CheckedPlan(plan))
}

} // verus!

//! Assurance plans, probe specifications and their results.
use crate::protocol::{DeviceBinding, DeviceBindingView, SourceSpan, SourceSpanView, RevisionRef, RevisionRefView};
use crate::net::{IpAddr, is_digit, is_first, parse_ip_chars, parse_ip_spec, radix_val, slice_chars};
use crate::text::{chars_of, clone_strings, strings_eq, view_strings};
use vstd::prelude::*;

verus! {

pub open spec fn width(a: IpAddr) -> u8 {
    if a is V4 { 32 } else { 128 }
}

pub open spec fn all_digits(s: Seq<char>) -> bool {
    forall|i: int| 0 <= i < s.len() ==> is_digit(#[trigger] s[i])
}

/// Host address plus prefix; a bare address denotes a full-width host prefix.
pub open spec fn parse_interface_address_spec(v: Seq<char>) -> Option<(IpAddr, u8)> {
    if !v.contains('/') {
        match parse_ip_spec(v) {
            Some(a) => Some((a, width(a))),
            None => None,
        }
    } else {
        let k = choose|k: int| is_first(v, '/', k);
        let rest = v.subrange(k + 1, v.len() as int);
        if rest.contains('/') || rest.len() == 0 || !all_digits(rest) {
            None
        } else {
            match parse_ip_spec(v.subrange(0, k)) {
                Some(a) => if radix_val(rest, 10) <= width(a) { Some((a, radix_val(rest, 10) as u8)) } else { None },
                None => None,
            }
        }
    }
}

proof fn lemma_decimal_grows(s: Seq<char>, n: int)
    requires
        0 <= n <= s.len(),
        all_digits(s),
    ensures
        radix_val(s.subrange(0, n), 10) <= radix_val(s, 10),
    decreases s.len() - n,
{
    if n < s.len() {
        lemma_decimal_grows(s, n + 1);
        let t = s.subrange(0, n + 1);
        assert(t.drop_last() =~= s.subrange(0, n));
        assert(is_digit(s[n]));
    } else {
        assert(s.subrange(0, n) =~= s);
    }
}

/// Parses an interface address `addr[/prefix]`; the prefix must be decimal
/// digits and at most the address width.
pub fn parse_interface_address(value: &str) -> (r: Option<(IpAddr, u8)>)
    ensures
        r == parse_interface_address_spec(value@),
{
    let v = chars_of(value);
    let mut k: usize = 0;
    while k < v.len() && v[k] != '/'
        invariant
            v@ == value@,
            k <= v@.len(),
            forall|j: int| 0 <= j < k ==> v@[j] != '/',
        decreases v@.len() - k,
    {
        k = k + 1;
    }
    if k == v.len() {
        proof {
            if value@.contains('/') {
                let j = choose|j: int| 0 <= j < value@.len() && value@[j] == '/';
                assert(false);
            }
        }
        return match parse_ip_chars(&v) {
            Some(a) => {
                let w: u8 = if a.is_ipv4() { 32 } else { 128 };
                Some((a, w))
            },
            None => None,
        };
    }
    assert(is_first(value@, '/', k as int));
    assert(value@.contains('/'));
    let ghost kk = choose|kk: int| is_first(value@, '/', kk);
    assert(kk == k) by {
        if kk < k { assert(v@[kk] != '/'); }
        if kk > k { assert(value@[k as int] != '/'); }
    }
    let ghost rest = value@.subrange(k + 1, value@.len() as int);
    let mut j: usize = k + 1;
    let mut acc: u32 = 0;
    let mut ok = j < v.len();
    while j < v.len()
        invariant
            v@ == value@,
            k < v@.len(),
            k + 1 <= j <= v@.len(),
            rest == value@.subrange(k + 1, value@.len() as int),
            ok ==> rest.len() > 0,
            ok ==> all_digits(value@.subrange(k + 1, j as int)) && acc == radix_val(value@.subrange(k + 1, j as int), 10) && acc <= 255,
            !ok ==> (rest.contains('/') || rest.len() == 0 || !all_digits(rest) || radix_val(rest, 10) > 255),
        decreases v@.len() - j,
    {
        let c = v[j];
        if ok {
            if '0' <= c && c <= '9' {
                let d = (c as u32) - 48;
                let ghost before = value@.subrange(k + 1, j as int);
                let ghost after = value@.subrange(k + 1, j + 1);
                assert(after.drop_last() =~= before);
                assert(all_digits(after));
                if acc * 10 + d > 255 {
                    proof {
                        assert(rest.subrange(0, (j + 1 - (k + 1)) as int) =~= after);
                        if all_digits(rest) {
                            lemma_decimal_grows(rest, (j + 1 - (k + 1)) as int);
                        }
                    }
                    ok = false;
                } else {
                    acc = acc * 10 + d;
                }
            } else {
                proof {
                    assert(rest[(j - (k + 1)) as int] == c);
                }
                ok = false;
            }
        }
        j = j + 1;
    }
    if !ok {
        return None;
    }
    assert(value@.subrange(k + 1, j as int) =~= rest);
    proof {
        if rest.contains('/') {
            let q = choose|q: int| 0 <= q < rest.len() && rest[q] == '/';
            assert(is_digit(rest[q]));
        }
    }
    let addr = slice_chars(&v, 0, k);
    match parse_ip_chars(&addr) {
        Some(a) => {
            let w: u32 = if a.is_ipv4() { 32 } else { 128 };
            if acc <= w {
                Some((a, acc as u8))
            } else {
                None
            }
        },
        None => None,
    }
}

#[derive(Debug, Clone, Copy, PartialEq, Eq, Structural, Hash)]
pub enum Primitive {
    TcpConnect,
    UdpDns,
    TcpDns,
    Http,
    Icmp,
    UciReadback,
    NetifdState,
}

impl Primitive {
    pub open spec fn default_interval_spec(self) -> u64 {
        match self {
            Primitive::UciReadback => 60_000,
            Primitive::NetifdState => 15_000,
            _ => 30_000,
        }
    }

    /// Scheduling interval used when a probe does not choose its own.
    pub fn default_interval_ms(self) -> (r: u64)
        ensures
            r == self.default_interval_spec(),
    {
        match self {
            Primitive::UciReadback => 60_000,
            Primitive::NetifdState => 15_000,
            _ => 30_000,
        }
    }
}

#[derive(Debug, Clone, Copy, PartialEq, Eq, Structural)]
pub enum IpFamily {
    V4,
    V6,
}

#[derive(Debug, Clone, PartialEq, Eq)]
pub struct ProbeSource {
    pub witness_id: String,
    pub location: String,
    pub bind_address: IpAddr,
    pub interface: Option<String>,
}

pub struct ProbeSourceView {
    pub witness_id: Seq<char>,
    pub location: Seq<char>,
    pub bind_address: IpAddr,
    pub interface: Option<Seq<char>>,
}

pub open spec fn view_opt_string(o: Option<String>) -> Option<Seq<char>> {
    match o {
        Some(s) => Some(s@),
        None => None,
    }
}

impl View for ProbeSource {
    type V = ProbeSourceView;
    open spec fn view(&self) -> ProbeSourceView {
        ProbeSourceView {
            witness_id: self.witness_id@,
            location: self.location@,
            bind_address: self.bind_address,
            interface: view_opt_string(self.interface),
        }
    }
}

pub fn opt_string_eq(a: &Option<String>, b: &Option<String>) -> (r: bool)
    ensures
        r == (view_opt_string(*a) == view_opt_string(*b)),
{
    match (a, b) {
        (Some(x), Some(y)) => *x == *y,
        (None, None) => true,
        _ => false,
    }
}

pub fn opt_string_clone(a: &Option<String>) -> (r: Option<String>)
    ensures
        view_opt_string(r) == view_opt_string(*a),
{
    match a {
        Some(x) => Some(x.clone()),
        None => None,
    }
}

impl ProbeSource {
    pub fn same(&self, other: &ProbeSource) -> (r: bool)
        ensures
            r == (self@ == other@),
    {
        self.witness_id == other.witness_id && self.location == other.location
            && self.bind_address == other.bind_address && opt_string_eq(&self.interface, &other.interface)
    }

    pub fn duplicate(&self) -> (r: ProbeSource)
        ensures
            r@ == self@,
    {
        ProbeSource {
            witness_id: self.witness_id.clone(),
            location: self.location.clone(),
            bind_address: self.bind_address,
            interface: opt_string_clone(&self.interface),
        }
    }
}

#[derive(Debug, Clone, Copy, PartialEq, Eq, Structural)]
pub struct Endpoint {
    pub address: IpAddr,
    pub port: Option<u16>,
    pub family: IpFamily,
}

#[derive(Debug, Clone, Copy, PartialEq, Eq, Structural)]
pub enum UciFieldForm {
    Scalar,
    OrderedList,
    Absent,
}

#[derive(Debug, Clone, PartialEq, Eq)]
pub enum Expectation {
    TcpConnected,
    DnsAnswer { name: String, record_type: String, answers: Vec<String> },
    HttpStatus { scheme: String, host: String, path: String, status: u16 },
    IcmpEcho,
    UciValue { package: String, section: String, option: String, form: UciFieldForm, values: Vec<String> },
    UciSection { package: String, section: String, section_type: String },
    NetifdInterface { interface: String, up: bool, addresses: Vec<String> },
}

pub enum ExpectationView {
    TcpConnected,
    DnsAnswer { name: Seq<char>, record_type: Seq<char>, answers: Seq<Seq<char>> },
    HttpStatus { scheme: Seq<char>, host: Seq<char>, path: Seq<char>, status: u16 },
    IcmpEcho,
    UciValue { package: Seq<char>, section: Seq<char>, option: Seq<char>, form: UciFieldForm, values: Seq<Seq<char>> },
    UciSection { package: Seq<char>, section: Seq<char>, section_type: Seq<char> },
    NetifdInterface { interface: Seq<char>, up: bool, addresses: Seq<Seq<char>> },
}

impl View for Expectation {
    type V = ExpectationView;
    open spec fn view(&self) -> ExpectationView {
        match self {
            Expectation::TcpConnected => ExpectationView::TcpConnected,
            Expectation::DnsAnswer { name, record_type, answers } => ExpectationView::DnsAnswer {
                name: name@,
                record_type: record_type@,
                answers: view_strings(answers@),
            },
            Expectation::HttpStatus { scheme, host, path, status } => ExpectationView::HttpStatus {
                scheme: scheme@,
                host: host@,
                path: path@,
                status: *status,
            },
            Expectation::IcmpEcho => ExpectationView::IcmpEcho,
            Expectation::UciValue { package, section, option, form, values } => ExpectationView::UciValue {
                package: package@,
                section: section@,
                option: option@,
                form: *form,
                values: view_strings(values@),
            },
            Expectation::UciSection { package, section, section_type } => ExpectationView::UciSection {
                package: package@,
                section: section@,
                section_type: section_type@,
            },
            Expectation::NetifdInterface { interface, up, addresses } => ExpectationView::NetifdInterface {
                interface: interface@,
                up: *up,
                addresses: view_strings(addresses@),
            },
        }
    }
}

impl Expectation {
    pub fn duplicate(&self) -> (r: Expectation)
        ensures
            r@ == self@,
    {
        match self {
            Expectation::TcpConnected => Expectation::TcpConnected,
            Expectation::DnsAnswer { name, record_type, answers } => Expectation::DnsAnswer {
                name: name.clone(),
                record_type: record_type.clone(),
                answers: clone_strings(answers),
            },
            Expectation::HttpStatus { scheme, host, path, status } => Expectation::HttpStatus {
                scheme: scheme.clone(),
                host: host.clone(),
                path: path.clone(),
                status: *status,
            },
            Expectation::IcmpEcho => Expectation::IcmpEcho,
            Expectation::UciValue { package, section, option, form, values } => Expectation::UciValue {
                package: package.clone(),
                section: section.clone(),
                option: option.clone(),
                form: *form,
                values: clone_strings(values),
            },
            Expectation::UciSection { package, section, section_type } => Expectation::UciSection {
                package: package.clone(),
                section: section.clone(),
                section_type: section_type.clone(),
            },
            Expectation::NetifdInterface { interface, up, addresses } => Expectation::NetifdInterface {
                interface: interface.clone(),
                up: *up,
                addresses: clone_strings(addresses),
            },
        }
    }

    pub fn same(&self, other: &Expectation) -> (r: bool)
        ensures
            r == (self@ == other@),
    {
        match (self, other) {
            (Expectation::TcpConnected, Expectation::TcpConnected) => true,
            (Expectation::IcmpEcho, Expectation::IcmpEcho) => true,
            (
                Expectation::DnsAnswer { name: a, record_type: b, answers: c },
                Expectation::DnsAnswer { name: x, record_type: y, answers: z },
            ) => *a == *x && *b == *y && strings_eq(c, z),
            (
                Expectation::HttpStatus { scheme: a, host: b, path: c, status: d },
                Expectation::HttpStatus { scheme: w, host: x, path: y, status: z },
            ) => *a == *w && *b == *x && *c == *y && *d == *z,
            (
                Expectation::UciValue { package: a, section: b, option: c, form: d, values: e },
                Expectation::UciValue { package: v, section: w, option: x, form: y, values: z },
            ) => *a == *v && *b == *w && *c == *x && *d == *y && strings_eq(e, z),
            (
                Expectation::UciSection { package: a, section: b, section_type: c },
                Expectation::UciSection { package: x, section: y, section_type: z },
            ) => *a == *x && *b == *y && *c == *z,
            (
                Expectation::NetifdInterface { interface: a, up: b, addresses: c },
                Expectation::NetifdInterface { interface: x, up: y, addresses: z },
            ) => *a == *x && *b == *y && strings_eq(c, z),
            _ => false,
        }
    }
}

#[derive(Debug, Clone, Copy, PartialEq, Eq, Structural)]
pub struct ResourceLimits {
    pub timeout_ms: u64,
    pub max_response_bytes: u32,
    pub max_attempts: u8,
}

#[derive(Debug, Clone, PartialEq, Eq)]
pub struct ProbeSpec {
    pub id: String,
    pub primitive: Primitive,
    pub device: DeviceBinding,
    pub source: ProbeSource,
    pub endpoint: Option<Endpoint>,
    pub expectation: Expectation,
    pub limits: ResourceLimits,
    pub interval_ms: u64,
    pub depends_on: Vec<String>,
    pub claims: Vec<String>,
}

pub struct ProbeSpecView {
    pub id: Seq<char>,
    pub primitive: Primitive,
    pub device: DeviceBindingView,
    pub source: ProbeSourceView,
    pub endpoint: Option<Endpoint>,
    pub expectation: ExpectationView,
    pub limits: ResourceLimits,
    pub interval_ms: u64,
    pub depends_on: Seq<Seq<char>>,
    pub claims: Seq<Seq<char>>,
}

impl View for ProbeSpec {
    type V = ProbeSpecView;
    open spec fn view(&self) -> ProbeSpecView {
        ProbeSpecView {
            id: self.id@,
            primitive: self.primitive,
            device: self.device@,
            source: self.source@,
            endpoint: self.endpoint,
            expectation: self.expectation@,
            limits: self.limits,
            interval_ms: self.interval_ms,
            depends_on: view_strings(self.depends_on@),
            claims: view_strings(self.claims@),
        }
    }
}

impl ProbeSpec {
    pub fn duplicate(&self) -> (r: ProbeSpec)
        ensures
            r@ == self@,
    {
        ProbeSpec {
            id: self.id.clone(),
            primitive: self.primitive,
            device: self.device.duplicate(),
            source: self.source.duplicate(),
            endpoint: self.endpoint,
            expectation: self.expectation.duplicate(),
            limits: self.limits,
            interval_ms: self.interval_ms,
            depends_on: clone_strings(&self.depends_on),
            claims: clone_strings(&self.claims),
        }
    }
}

#[derive(Debug, Clone, Copy, PartialEq, Eq, Structural)]
pub enum Outcome {
    Success,
    Violation,
    Timeout,
    Refused,
    Unreachable,
    DnsNxDomain,
    DnsServerFailure,
    TlsFailure,
    MalformedResponse,
    Unsupported,
    Unavailable,
}

#[derive(Debug, Clone, PartialEq, Eq)]
pub struct ProbeResult {
    pub probe_id: String,
    pub outcome: Outcome,
    pub started_at_ms: u64,
    pub finished_at_ms: u64,
    pub detail: String,
}

#[derive(Debug, Clone, PartialEq, Eq)]
pub struct DeviceProfile {
    pub version: u32,
    pub device: DeviceBinding,
    pub firmware: String,
    pub observed_at_ms: u64,
    pub expires_at_ms: u64,
    pub supported_primitives: Vec<Primitive>,
    pub hardware_validated: bool,
}

pub struct DeviceProfileView {
    pub version: u32,
    pub device: DeviceBindingView,
    pub firmware: Seq<char>,
    pub observed_at_ms: u64,
    pub expires_at_ms: u64,
    pub supported_primitives: Seq<Primitive>,
    pub hardware_validated: bool,
}

impl View for DeviceProfile {
    type V = DeviceProfileView;
    open spec fn view(&self) -> DeviceProfileView {
        DeviceProfileView {
            version: self.version,
            device: self.device@,
            firmware: self.firmware@,
            observed_at_ms: self.observed_at_ms,
            expires_at_ms: self.expires_at_ms,
            supported_primitives: self.supported_primitives@,
            hardware_validated: self.hardware_validated,
        }
    }
}

pub fn primitives_eq(a: &Vec<Primitive>, b: &Vec<Primitive>) -> (r: bool)
    ensures
        r == (a@ == b@),
{
    if a.len() != b.len() {
        return false;
    }
    let mut i: usize = 0;
    while i < a.len()
        invariant
            a@.len() == b@.len(),
            i <= a@.len(),
            forall|j: int| 0 <= j < i ==> a@[j] == b@[j],
        decreases a@.len() - i,
    {
        if a[i] != b[i] {
            return false;
        }
        i = i + 1;
    }
    assert(a@ =~= b@);
    true
}

impl DeviceProfile {
    pub fn same(&self, other: &DeviceProfile) -> (r: bool)
        ensures
            r == (self@ == other@),
    {
        self.version == other.version && self.device.same(&other.device) && self.firmware == other.firmware
            && self.observed_at_ms == other.observed_at_ms && self.expires_at_ms == other.expires_at_ms
            && primitives_eq(&self.supported_primitives, &other.supported_primitives)
            && self.hardware_validated == other.hardware_validated
    }
}

/// Concrete requirements supplied by compiler admission and explicit bindings,
/// never inferred from the untrusted submitted plan itself.
#[derive(Debug, Clone, PartialEq, Eq)]
pub struct ProbeRequirement {
    pub primitive: Primitive,
    pub source: ProbeSource,
    pub endpoint: Option<Endpoint>,
    pub expectation: Expectation,
}

pub struct ProbeRequirementView {
    pub primitive: Primitive,
    pub source: ProbeSourceView,
    pub endpoint: Option<Endpoint>,
    pub expectation: ExpectationView,
}

impl View for ProbeRequirement {
    type V = ProbeRequirementView;
    open spec fn view(&self) -> ProbeRequirementView {
        ProbeRequirementView {
            primitive: self.primitive,
            source: self.source@,
            endpoint: self.endpoint,
            expectation: self.expectation@,
        }
    }
}

impl ProbeRequirement {
    pub fn same(&self, other: &ProbeRequirement) -> (r: bool)
        ensures
            r == (self@ == other@),
    {
        self.primitive == other.primitive && self.source.same(&other.source) && self.endpoint == other.endpoint
            && self.expectation.same(&other.expectation)
    }
}

#[derive(Debug, Clone, PartialEq, Eq)]
pub struct Claim {
    pub id: String,
    pub device_id: String,
    pub kind: String,
    pub source: SourceSpan,
    pub requirements: Vec<ProbeRequirement>,
    pub unsupported_reason: Option<String>,
}

pub struct ClaimView {
    pub id: Seq<char>,
    pub device_id: Seq<char>,
    pub kind: Seq<char>,
    pub source: SourceSpanView,
    pub requirements: Seq<ProbeRequirementView>,
    pub unsupported_reason: Option<Seq<char>>,
}

impl View for Claim {
    type V = ClaimView;
    open spec fn view(&self) -> ClaimView {
        ClaimView {
            id: self.id@,
            device_id: self.device_id@,
            kind: self.kind@,
            source: self.source@,
            requirements: self.requirements@.map_values(|r: ProbeRequirement| r@),
            unsupported_reason: view_opt_string(self.unsupported_reason),
        }
    }
}

impl Claim {
    pub fn same(&self, other: &Claim) -> (r: bool)
        ensures
            r == (self@ == other@),
    {
        if !(self.id == other.id && self.device_id == other.device_id && self.kind == other.kind
            && self.source.same(&other.source) && opt_string_eq(&self.unsupported_reason, &other.unsupported_reason)
            && self.requirements.len() == other.requirements.len()) {
            proof {
                if self@ == other@ {
                    assert(self@.requirements.len() == other@.requirements.len());
                }
            }
            return false;
        }
        let mut i: usize = 0;
        while i < self.requirements.len()
            invariant
                self.requirements@.len() == other.requirements@.len(),
                i <= self.requirements@.len(),
                forall|j: int| 0 <= j < i ==> self.requirements@[j]@ == other.requirements@[j]@,
            decreases self.requirements@.len() - i,
        {
            if !self.requirements[i].same(&other.requirements[i]) {
                proof {
                    if self@ == other@ {
                        assert(self@.requirements[i as int] == other@.requirements[i as int]);
                    }
                }
                return false;
            }
            i = i + 1;
        }
        assert(self@.requirements =~= other@.requirements);
        true
    }
}

#[derive(Debug, Clone, PartialEq, Eq)]
pub struct AssurancePlan {
    pub version: u32,
    pub id: String,
    pub epoch: u64,
    pub revision: RevisionRef,
    pub graph_version: u64,
    pub profiles: Vec<DeviceProfile>,
    pub claims: Vec<Claim>,
    pub probes: Vec<ProbeSpec>,
}

pub open spec fn view_profiles(s: Seq<DeviceProfile>) -> Seq<DeviceProfileView> {
    s.map_values(|p: DeviceProfile| p@)
}

pub open spec fn view_claims(s: Seq<Claim>) -> Seq<ClaimView> {
    s.map_values(|c: Claim| c@)
}

pub open spec fn view_probes(s: Seq<ProbeSpec>) -> Seq<ProbeSpecView> {
    s.map_values(|p: ProbeSpec| p@)
}

pub struct AssurancePlanView {
    pub version: u32,
    pub id: Seq<char>,
    pub epoch: u64,
    pub revision: RevisionRefView,
    pub graph_version: u64,
    pub profiles: Seq<DeviceProfileView>,
    pub claims: Seq<ClaimView>,
    pub probes: Seq<ProbeSpecView>,
}

impl View for AssurancePlan {
    type V = AssurancePlanView;
    open spec fn view(&self) -> AssurancePlanView {
        AssurancePlanView {
            version: self.version,
            id: self.id@,
            epoch: self.epoch,
            revision: self.revision@,
            graph_version: self.graph_version,
            profiles: view_profiles(self.profiles@),
            claims: view_claims(self.claims@),
            probes: view_probes(self.probes@),
        }
    }
}

} // verus!

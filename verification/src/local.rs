//! Device-local observations. They use the installed device binding,
//! witness source and read-only rpcd session, never credentials or a device
//! identity from the probe payload, and judge committed UCI state and netifd
//! interface state against the probe's expectation.
use crate::adapters::{
    netifd_interfaces_spec, package_ok, session_id_ok, uci_get_spec, JsonValue, ObservationError, OperationalCollection, OperationalCollectionView,
    ReadOnlyUbus, UbusTransport,
};
use crate::assurance::{
    parse_interface_address, parse_interface_address_spec, Expectation, Outcome, ProbeResult, ProbeSource, ProbeSpec,
    UciFieldForm,
};
use crate::check::{valid_probe, validate_probe};
use crate::net::IpAddr;
use crate::protocol::DeviceBinding;
use crate::state::{view_sections, CompletenessView, ConfigField, ConfigFieldView, ConfigSection, ConfigSectionView, OperationalFact, OperationalFactView};
use crate::text::view_strings;
use vstd::prelude::*;

verus! {

/// What the witness installed for local observation.
pub struct LocalObservationContext {
    pub device: DeviceBinding,
    pub source: ProbeSource,
    pub rpcd_session: String,
}

pub open spec fn verdict_spec(matched: bool) -> Outcome {
    if matched { Outcome::Success } else { Outcome::Violation }
}

fn verdict(matched: bool, subject: &str) -> (r: (Outcome, String))
    ensures
        r.0 == verdict_spec(matched),
{
    let tail = if matched { " matches expectation" } else { " differs from expectation" };
    (if matched { Outcome::Success } else { Outcome::Violation }, crate::protocol::concat_str(subject, tail))
}

/// How an observation failure is reported, without response content or
/// session credentials.
pub open spec fn observation_error_spec(e: ObservationError) -> Outcome {
    match e {
        ObservationError::Timeout => Outcome::Timeout,
        ObservationError::Malformed(_) | ObservationError::ResponseTooLarge => Outcome::MalformedResponse,
        ObservationError::UnsupportedMethod { .. } => Outcome::Unsupported,
        ObservationError::Unavailable(_) | ObservationError::Denied(_) => Outcome::Unavailable,
    }
}

pub fn observation_error(e: ObservationError) -> (r: (Outcome, String))
    ensures
        r.0 == observation_error_spec(e),
{
    match e {
        ObservationError::Timeout => (Outcome::Timeout, "native ubus invocation timed out".to_string()),
        ObservationError::Malformed(_) | ObservationError::ResponseTooLarge => {
            (Outcome::MalformedResponse, "native ubus response is malformed or exceeds limits".to_string())
        },
        ObservationError::UnsupportedMethod { .. } => (Outcome::Unsupported, "native ubus method is unsupported".to_string()),
        ObservationError::Unavailable(_) | ObservationError::Denied(_) => {
            (Outcome::Unavailable, "read-only native ubus observation is unavailable or denied".to_string())
        },
    }
}

/// `k` is the first section with this name.
pub open spec fn first_section(ss: Seq<ConfigSectionView>, name: Seq<char>, k: int) -> bool {
    &&& 0 <= k < ss.len()
    &&& ss[k].section == name
    &&& forall|m: int| 0 <= m < k ==> (#[trigger] ss[m]).section != name
}

/// `k` is the first field with this name.
pub open spec fn first_field(fs: Seq<ConfigFieldView>, name: Seq<char>, k: int) -> bool {
    &&& 0 <= k < fs.len()
    &&& fs[k].name() == name
    &&& forall|m: int| 0 <= m < k ==> (#[trigger] fs[m]).name() != name
}

/// A committed UCI field against the expected form and values: a redacted
/// field is unavailable; an absent field matches only an absence; a scalar
/// matches exactly one equal value; a list matches the values in order.
pub open spec fn uci_value_outcome(
    ss: Seq<ConfigSectionView>,
    section: Seq<char>,
    option: Seq<char>,
    form: UciFieldForm,
    values: Seq<Seq<char>>,
) -> Outcome {
    if !exists|k: int| #[trigger] first_section(ss, section, k) {
        Outcome::Violation
    } else {
        let s = ss[choose|k: int| #[trigger] first_section(ss, section, k)];
        if !exists|j: int| #[trigger] first_field(s.fields, option, j) {
            verdict_spec(form == UciFieldForm::Absent)
        } else {
            match s.fields[choose|j: int| #[trigger] first_field(s.fields, option, j)] {
                ConfigFieldView::Redacted { .. } => Outcome::Unavailable,
                ConfigFieldView::Option { value, .. } => verdict_spec(form == UciFieldForm::Scalar && values == seq![value]),
                ConfigFieldView::List { values: actual, .. } => verdict_spec(form == UciFieldForm::OrderedList && values == actual),
            }
        }
    }
}

proof fn lemma_first_section_unique(ss: Seq<ConfigSectionView>, name: Seq<char>, a: int, b: int)
    requires
        first_section(ss, name, a),
        first_section(ss, name, b),
    ensures
        a == b,
{
    if a < b {
        assert(ss[a].section != name);
    } else if b < a {
        assert(ss[b].section != name);
    }
}

proof fn lemma_first_field_unique(fs: Seq<ConfigFieldView>, name: Seq<char>, a: int, b: int)
    requires
        first_field(fs, name, a),
        first_field(fs, name, b),
    ensures
        a == b,
{
    if a < b {
        assert(fs[a].name() != name);
    } else if b < a {
        assert(fs[b].name() != name);
    }
}

proof fn lemma_first_field_exists(fs: Seq<ConfigFieldView>, name: Seq<char>, j: int)
    requires
        0 <= j < fs.len(),
        fs[j].name() == name,
    ensures
        exists|k: int| #[trigger] first_field(fs, name, k),
    decreases j,
{
    if forall|m: int| 0 <= m < j ==> (#[trigger] fs[m]).name() != name {
        assert(first_field(fs, name, j));
    } else {
        let m = choose|m: int| 0 <= m < j && (#[trigger] fs[m]).name() == name;
        lemma_first_field_exists(fs, name, m);
    }
}

/// Law: a UCI value expectation succeeds exactly on what is committed. The
/// first section with the expected name must hold, as the first field with
/// the option's name, a scalar equal to the single expected value (scalar
/// form) or a list equal to the expected values in order (list form), or
/// hold no field of that name (absent form); a redacted field never
/// succeeds, and a missing section is a violation.
pub proof fn lemma_uci_value_judged_on_committed(
    ss: Seq<ConfigSectionView>,
    section: Seq<char>,
    option: Seq<char>,
    form: UciFieldForm,
    values: Seq<Seq<char>>,
)
    ensures
        uci_value_outcome(ss, section, option, form, values) == Outcome::Success <==> exists|k: int| #[trigger] first_section(ss, section, k) && (
            (form == UciFieldForm::Absent && forall|j: int| 0 <= j < ss[k].fields.len() ==> (#[trigger] ss[k].fields[j]).name() != option)
            || (form == UciFieldForm::Scalar && values.len() == 1 && exists|j: int| #[trigger] first_field(ss[k].fields, option, j)
                && ss[k].fields[j] == (ConfigFieldView::Option { name: option, value: values[0] }))
            || (form == UciFieldForm::OrderedList && exists|j: int| #[trigger] first_field(ss[k].fields, option, j)
                && ss[k].fields[j] == (ConfigFieldView::List { name: option, values }))),
        (forall|k: int| 0 <= k < ss.len() ==> (#[trigger] ss[k]).section != section) ==> uci_value_outcome(ss, section, option, form, values)
            == Outcome::Violation,
{
    if exists|k: int| #[trigger] first_section(ss, section, k) {
        let k = choose|k: int| #[trigger] first_section(ss, section, k);
        let s = ss[k];
        assert forall|k2: int| #[trigger] first_section(ss, section, k2) implies k2 == k by {
            lemma_first_section_unique(ss, section, k, k2);
        }
        if exists|j: int| #[trigger] first_field(s.fields, option, j) {
            let j = choose|j: int| #[trigger] first_field(s.fields, option, j);
            assert forall|j2: int| #[trigger] first_field(s.fields, option, j2) implies j2 == j by {
                lemma_first_field_unique(s.fields, option, j, j2);
            }
            assert(s.fields[j].name() == option);
            match s.fields[j] {
                ConfigFieldView::Option { name, value } => {
                    if form == UciFieldForm::Scalar && values.len() == 1 && values[0] == value {
                        assert(values =~= seq![value]);
                    }
                },
                _ => {},
            }
        } else {
            assert forall|j: int| 0 <= j < s.fields.len() implies (#[trigger] s.fields[j]).name() != option by {
                if s.fields[j].name() == option {
                    lemma_first_field_exists(s.fields, option, j);
                }
            }
        }
    }
}

/// Some committed section has this name and type.
pub open spec fn uci_section_outcome(ss: Seq<ConfigSectionView>, section: Seq<char>, section_type: Seq<char>) -> Outcome {
    verdict_spec(exists|k: int| 0 <= k < ss.len() && (#[trigger] ss[k]).section == section && ss[k].kind == section_type)
}

pub open spec fn is_interface_named(f: OperationalFactView, name: Seq<char>) -> bool {
    f matches OperationalFactView::Interface { name: n, .. } && n == name
}

/// Every text parses as an interface address.
pub open spec fn all_parse(addresses: Seq<Seq<char>>) -> bool {
    forall|i: int| 0 <= i < addresses.len() ==> (#[trigger] parse_interface_address_spec(addresses[i])) is Some
}

/// The parsed address `a` is among the texts.
pub open spec fn among(addresses: Seq<Seq<char>>, a: (IpAddr, u8)) -> bool {
    exists|i: int| 0 <= i < addresses.len() && parse_interface_address_spec(#[trigger] addresses[i]) == Some(a)
}

/// Addresses are a set, unlike order-sensitive UCI list values.
pub open spec fn same_address_set(expected: Seq<Seq<char>>, actual: Seq<Seq<char>>) -> bool {
    forall|a: (IpAddr, u8)| #[trigger] among(expected, a) <==> among(actual, a)
}

/// A netifd interface against the expectation: incomplete data is
/// unavailable; a missing interface differs; one interface matches on its
/// state and exact address set; a repeated interface or an address that
/// does not parse is malformed.
pub open spec fn netifd_outcome(
    c: OperationalCollectionView,
    interface: Seq<char>,
    up: bool,
    addresses: Seq<Seq<char>>,
) -> Option<Outcome> {
    let matching = c.facts.filter(|f: OperationalFactView| is_interface_named(f, interface));
    if !(c.completeness is Complete) {
        Some(Outcome::Unavailable)
    } else if matching.len() == 0 {
        Some(Outcome::Violation)
    } else if matching.len() > 1 {
        None
    } else {
        match matching[0] {
            OperationalFactView::Interface { up: actual_up, addresses: actual, .. } => {
                if !all_parse(addresses) || !all_parse(actual) {
                    None
                } else {
                    Some(verdict_spec(up == actual_up && same_address_set(addresses, actual)))
                }
            },
            _ => None,
        }
    }
}

/// Every text of `xs` parses and, parsed, equals some parsed text of `ys`.
pub open spec fn parsed_within(xs: Seq<Seq<char>>, ys: Seq<Seq<char>>) -> bool {
    forall|j: int| 0 <= j < xs.len() ==> exists|k: int| 0 <= k < ys.len() && parse_interface_address_spec(#[trigger] xs[j]) is Some
        && parse_interface_address_spec(xs[j]) == parse_interface_address_spec(ys[k])
}

proof fn lemma_same_set_within(xs: Seq<Seq<char>>, ys: Seq<Seq<char>>)
    requires
        all_parse(xs),
        same_address_set(xs, ys),
    ensures
        parsed_within(xs, ys),
{
    assert forall|j: int| 0 <= j < xs.len() implies exists|k: int| 0 <= k < ys.len() && parse_interface_address_spec(#[trigger] xs[j])
        is Some && parse_interface_address_spec(xs[j]) == parse_interface_address_spec(ys[k]) by {
        let a = parse_interface_address_spec(xs[j])->0;
        assert(among(xs, a));
        assert(among(ys, a));
    }
}

/// Law: a netifd expectation succeeds only on a complete observation that
/// holds the named interface with the expected state, where every expected
/// address parses and occurs, as a parsed address, among the interface's
/// addresses, and every one of those occurs among the expected ones. With no
/// interface of that name the expectation is violated, and an incomplete
/// observation is unavailable.
pub proof fn lemma_netifd_success_is_observed(c: OperationalCollectionView, interface: Seq<char>, up: bool, addresses: Seq<Seq<char>>)
    ensures
        netifd_outcome(c, interface, up, addresses) == Some(Outcome::Success) ==> c.completeness is Complete && exists|f: OperationalFactView|
            #[trigger] c.facts.contains(f) && (f matches OperationalFactView::Interface { name, up: actual_up, addresses: actual, .. }
                && name == interface && actual_up == up && parsed_within(addresses, actual) && parsed_within(actual, addresses)),
        c.completeness is Complete && (forall|i: int| 0 <= i < c.facts.len() ==> !is_interface_named(#[trigger] c.facts[i], interface))
            ==> netifd_outcome(c, interface, up, addresses) == Some(Outcome::Violation),
        !(c.completeness is Complete) ==> netifd_outcome(c, interface, up, addresses) == Some(Outcome::Unavailable),
{
    let pred = |f: OperationalFactView| is_interface_named(f, interface);
    let matching = c.facts.filter(pred);
    if matching.len() > 0 {
        c.facts.lemma_filter_pred(pred, 0);
        assert(matching.contains(matching[0]));
        c.facts.lemma_filter_contains_rev(pred, matching[0]);
    }
    if netifd_outcome(c, interface, up, addresses) == Some(Outcome::Success) {
        let f = matching[0];
        match f {
            OperationalFactView::Interface { name, up: actual_up, addresses: actual, .. } => {
                lemma_same_set_within(addresses, actual);
                lemma_same_set_within(actual, addresses);
            },
            _ => {},
        }
        assert(c.facts.contains(f));
    }
}

fn find_section(ss: &Vec<ConfigSection>, name: &String) -> (r: Option<usize>)
    ensures
        match r {
            Some(k) => first_section(view_sections(ss@), name@, k as int),
            None => !exists|k: int| #[trigger] first_section(view_sections(ss@), name@, k),
        },
{
    let ghost vs = view_sections(ss@);
    let mut i: usize = 0;
    while i < ss.len()
        invariant
            i <= ss@.len(),
            vs == view_sections(ss@),
            forall|m: int| 0 <= m < i ==> (#[trigger] vs[m]).section != name@,
        decreases ss@.len() - i,
    {
        assert(vs[i as int] == ss@[i as int]@);
        if ss[i].section == *name {
            return Some(i);
        }
        i = i + 1;
    }
    None
}

fn field_name(f: &ConfigField) -> (r: &String)
    ensures
        r@ == f@.name(),
{
    match f {
        ConfigField::Option { name, .. } => name,
        ConfigField::List { name, .. } => name,
        ConfigField::Redacted { name } => name,
    }
}

fn find_field(fs: &Vec<ConfigField>, name: &String) -> (r: Option<usize>)
    ensures
        match r {
            Some(k) => first_field(crate::state::view_fields(fs@), name@, k as int),
            None => !exists|k: int| #[trigger] first_field(crate::state::view_fields(fs@), name@, k),
        },
{
    let ghost vs = crate::state::view_fields(fs@);
    let mut i: usize = 0;
    while i < fs.len()
        invariant
            i <= fs@.len(),
            vs == crate::state::view_fields(fs@),
            forall|m: int| 0 <= m < i ==> (#[trigger] vs[m]).name() != name@,
        decreases fs@.len() - i,
    {
        assert(vs[i as int] == fs@[i as int]@);
        if *field_name(&fs[i]) == *name {
            return Some(i);
        }
        i = i + 1;
    }
    None
}

/// Judges a committed UCI field.
pub fn judge_uci_value(
    sections: &Vec<ConfigSection>,
    section: &String,
    option: &String,
    form: UciFieldForm,
    values: &Vec<String>,
) -> (r: (Outcome, String))
    ensures
        r.0 == uci_value_outcome(view_sections(sections@), section@, option@, form, view_strings(values@)),
{
    let ghost ss = view_sections(sections@);
    let k = match find_section(sections, section) {
        Some(k) => k,
        None => {
            return verdict(false, "committed UCI section");
        },
    };
    proof {
        let c = choose|c: int| #[trigger] first_section(ss, section@, c);
        if c < k {
            assert(ss[c].section != section@);
        } else if k < c {
            assert(ss[k as int].section != section@);
        }
        assert(ss[k as int] == sections@[k as int]@);
    }
    let s = &sections[k];
    let ghost fs = crate::state::view_fields(s.fields@);
    let j = match find_field(&s.fields, option) {
        Some(j) => j,
        None => {
            return verdict(form == UciFieldForm::Absent, "committed UCI field type and value");
        },
    };
    proof {
        let c = choose|c: int| #[trigger] first_field(fs, option@, c);
        if c < j {
            assert(fs[c].name() != option@);
        } else if j < c {
            assert(fs[j as int].name() != option@);
        }
        assert(fs[j as int] == s.fields@[j as int]@);
    }
    match &s.fields[j] {
        ConfigField::Redacted { .. } => (Outcome::Unavailable, "requested field is redacted".to_string()),
        ConfigField::Option { value, .. } => {
            let matched = form == UciFieldForm::Scalar && values.len() == 1 && values[0] == *value;
            proof {
                if form == UciFieldForm::Scalar && values@.len() == 1 {
                    if values[0]@ == value@ {
                        assert(view_strings(values@) =~= seq![value@]);
                    }
                } else if view_strings(values@) == seq![value@] {
                    assert(view_strings(values@).len() == 1);
                }
                if form == UciFieldForm::Scalar && values@.len() == 1 && view_strings(values@) == seq![value@] {
                    assert(view_strings(values@)[0] == values@[0]@);
                }
            }
            verdict(matched, "committed UCI field type and value")
        },
        ConfigField::List { values: actual, .. } => {
            let matched = form == UciFieldForm::OrderedList && crate::text::strings_eq(values, actual);
            verdict(matched, "committed UCI field type and value")
        },
    }
}

/// Judges whether a committed section has the expected type.
pub fn judge_uci_section(sections: &Vec<ConfigSection>, section: &String, section_type: &String) -> (r: (Outcome, String))
    ensures
        r.0 == uci_section_outcome(view_sections(sections@), section@, section_type@),
{
    let ghost ss = view_sections(sections@);
    let mut i: usize = 0;
    while i < sections.len()
        invariant
            i <= sections@.len(),
            ss == view_sections(sections@),
            forall|m: int| 0 <= m < i ==> !((#[trigger] ss[m]).section == section@ && ss[m].kind == section_type@),
        decreases sections@.len() - i,
    {
        assert(ss[i as int] == sections@[i as int]@);
        if sections[i].section == *section && sections[i].kind == *section_type {
            return verdict(true, "committed UCI section type");
        }
        i = i + 1;
    }
    verdict(false, "committed UCI section type")
}

fn parse_all(texts: &Vec<String>) -> (r: Option<Vec<(IpAddr, u8)>>)
    ensures
        match r {
            Some(v) => all_parse(view_strings(texts@)) && v@.len() == texts@.len() && forall|i: int| 0 <= i < v@.len()
                ==> parse_interface_address_spec(texts@[i]@) == Some(#[trigger] v@[i]),
            None => !all_parse(view_strings(texts@)),
        },
{
    let ghost ts = view_strings(texts@);
    let mut out: Vec<(IpAddr, u8)> = Vec::new();
    let mut i: usize = 0;
    while i < texts.len()
        invariant
            i <= texts@.len(),
            ts == view_strings(texts@),
            out@.len() == i,
            forall|m: int| 0 <= m < i ==> parse_interface_address_spec(texts@[m]@) == Some(#[trigger] out@[m]),
        decreases texts@.len() - i,
    {
        assert(ts[i as int] == texts@[i as int]@);
        match parse_interface_address(texts[i].as_str()) {
            Some(a) => out.push(a),
            None => {
                assert(parse_interface_address_spec(ts[i as int]) is None);
                return None;
            },
        }
        i = i + 1;
    }
    assert forall|m: int| 0 <= m < ts.len() implies (#[trigger] parse_interface_address_spec(ts[m])) is Some by {
        assert(ts[m] == texts@[m]@);
        assert(parse_interface_address_spec(texts@[m]@) == Some(out@[m]));
    }
    Some(out)
}

fn contains_address(v: &Vec<(IpAddr, u8)>, a: (IpAddr, u8)) -> (r: bool)
    ensures
        r == v@.contains(a),
{
    let mut i: usize = 0;
    while i < v.len()
        invariant
            i <= v@.len(),
            forall|m: int| 0 <= m < i ==> v@[m] != a,
        decreases v@.len() - i,
    {
        if v[i].0 == a.0 && v[i].1 == a.1 {
            return true;
        }
        i = i + 1;
    }
    false
}

/// Every parsed address of `a` is among `b`'s.
fn covered(a: &Vec<(IpAddr, u8)>, b: &Vec<(IpAddr, u8)>) -> (r: bool)
    ensures
        r == forall|i: int| 0 <= i < a@.len() ==> b@.contains(#[trigger] a@[i]),
{
    let mut i: usize = 0;
    while i < a.len()
        invariant
            i <= a@.len(),
            forall|m: int| 0 <= m < i ==> b@.contains(#[trigger] a@[m]),
        decreases a@.len() - i,
    {
        if !contains_address(b, a[i]) {
            return false;
        }
        i = i + 1;
    }
    true
}

/// The positions of the facts about the named interface.
fn matching_interfaces(c: &OperationalCollection, interface: &String) -> (r: Vec<usize>)
    ensures
        ({
            let matching = c@.facts.filter(|f: OperationalFactView| is_interface_named(f, interface@));
            &&& r@.len() == matching.len()
            &&& forall|m: int| 0 <= m < r@.len() ==> (#[trigger] r@[m]) < c@.facts.len() && matching[m] == c@.facts[r@[m] as int]
        }),
{
    let ghost fs = crate::state::view_facts(c.facts@);
    let ghost pred = |f: OperationalFactView| is_interface_named(f, interface@);
    let mut idx: Vec<usize> = Vec::new();
    let mut i: usize = 0;
    while i < c.facts.len()
        invariant
            i <= c.facts@.len(),
            fs == crate::state::view_facts(c.facts@),
            pred == (|f: OperationalFactView| is_interface_named(f, interface@)),
            idx@.len() == fs.subrange(0, i as int).filter(pred).len(),
            forall|m: int| 0 <= m < idx@.len() ==> (#[trigger] idx@[m]) < i && fs.subrange(0, i as int).filter(pred)[m] == fs[idx@[m] as int],
        decreases c.facts@.len() - i,
    {
        assert(fs[i as int] == c.facts@[i as int]@);
        let ghost before = fs.subrange(0, i as int);
        assert(fs.subrange(0, i + 1) == before.push(fs[i as int]));
        proof {
            before.lemma_filter_push(fs[i as int], pred);
        }
        let named = match &c.facts[i] {
            OperationalFact::Interface { name, .. } => *name == *interface,
            _ => false,
        };
        assert(named == pred(fs[i as int]));
        if named {
            idx.push(i);
        }
        i = i + 1;
    }
    assert(fs.subrange(0, fs.len() as int) =~= fs);
    idx
}

proof fn lemma_address_sets(
    e: Seq<Seq<char>>,
    a: Seq<Seq<char>>,
    pe: Seq<(IpAddr, u8)>,
    pa: Seq<(IpAddr, u8)>,
)
    requires
        pe.len() == e.len(),
        pa.len() == a.len(),
        forall|m: int| 0 <= m < e.len() ==> parse_interface_address_spec(#[trigger] e[m]) == Some(pe[m]),
        forall|m: int| 0 <= m < a.len() ==> parse_interface_address_spec(#[trigger] a[m]) == Some(pa[m]),
    ensures
        same_address_set(e, a) <==> (forall|i: int| 0 <= i < pe.len() ==> pa.contains(#[trigger] pe[i]))
            && (forall|i: int| 0 <= i < pa.len() ==> pe.contains(#[trigger] pa[i])),
{
    let forward = forall|i: int| 0 <= i < pe.len() ==> pa.contains(#[trigger] pe[i]);
    let backward = forall|i: int| 0 <= i < pa.len() ==> pe.contains(#[trigger] pa[i]);
    if forward && backward {
        assert forall|x: (IpAddr, u8)| #[trigger] among(e, x) <==> among(a, x) by {
            if among(e, x) {
                let m = choose|m: int| 0 <= m < e.len() && parse_interface_address_spec(#[trigger] e[m]) == Some(x);
                assert(pa.contains(pe[m]));
                let n = choose|n: int| 0 <= n < pa.len() && pa[n] == pe[m];
                assert(parse_interface_address_spec(a[n]) == Some(x));
            }
            if among(a, x) {
                let m = choose|m: int| 0 <= m < a.len() && parse_interface_address_spec(#[trigger] a[m]) == Some(x);
                assert(pe.contains(pa[m]));
                let n = choose|n: int| 0 <= n < pe.len() && pe[n] == pa[m];
                assert(parse_interface_address_spec(e[n]) == Some(x));
            }
        }
    } else if !forward {
        let m = choose|m: int| 0 <= m < pe.len() && !pa.contains(#[trigger] pe[m]);
        let x = pe[m];
        assert(parse_interface_address_spec(e[m]) == Some(x));
        assert(among(e, x));
        if among(a, x) {
            let n = choose|n: int| 0 <= n < a.len() && parse_interface_address_spec(#[trigger] a[n]) == Some(x);
            assert(pa[n] == x);
        }
    } else {
        let m = choose|m: int| 0 <= m < pa.len() && !pe.contains(#[trigger] pa[m]);
        let x = pa[m];
        assert(parse_interface_address_spec(a[m]) == Some(x));
        assert(among(a, x));
        if among(e, x) {
            let n = choose|n: int| 0 <= n < e.len() && parse_interface_address_spec(#[trigger] e[n]) == Some(x);
            assert(pe[n] == x);
        }
    }
}

/// Judges a netifd interface against the expected state and address set.
pub fn judge_netifd(c: &OperationalCollection, interface: &String, up: bool, addresses: &Vec<String>)
    -> (r: Result<(Outcome, String), ObservationError>)
    ensures
        match netifd_outcome(c@, interface@, up, view_strings(addresses@)) {
            Some(o) => r matches Ok(x) && x.0 == o,
            None => r matches Err(ObservationError::Malformed(_)),
        },
{
    if !matches!(c.completeness, crate::state::Completeness::Complete) {
        return Ok((Outcome::Unavailable, "netifd interface observation is incomplete".to_string()));
    }
    let idx = matching_interfaces(c, interface);
    if idx.len() == 0 {
        return Ok(verdict(false, "netifd interface presence"));
    }
    if idx.len() > 1 {
        return Err(ObservationError::Malformed("duplicate netifd interface identity".to_string()));
    }
    let k = idx[0];
    assert(c@.facts[k as int] == c.facts@[k as int]@);
    match &c.facts[k] {
        OperationalFact::Interface { up: actual_up, addresses: actual, .. } => {
            let expected = match parse_all(addresses) {
                Some(v) => v,
                None => {
                    return Err(ObservationError::Malformed("invalid expected address".to_string()));
                },
            };
            let observed = match parse_all(actual) {
                Some(v) => v,
                None => {
                    return Err(ObservationError::Malformed("invalid observed address".to_string()));
                },
            };
            let forward = covered(&expected, &observed);
            let backward = covered(&observed, &expected);
            proof {
                let e = view_strings(addresses@);
                let a = view_strings(actual@);
                assert forall|m: int| 0 <= m < e.len() implies parse_interface_address_spec(#[trigger] e[m]) == Some(expected@[m]) by {
                    assert(e[m] == addresses@[m]@);
                    assert(parse_interface_address_spec(addresses@[m]@) == Some(expected@[m]));
                }
                assert forall|m: int| 0 <= m < a.len() implies parse_interface_address_spec(#[trigger] a[m]) == Some(observed@[m]) by {
                    assert(a[m] == actual@[m]@);
                    assert(parse_interface_address_spec(actual@[m]@) == Some(observed@[m]));
                }
                lemma_address_sets(e, a, expected@, observed@);
            }
            Ok(verdict(up == *actual_up && forward && backward, "netifd interface status and exact address set"))
        },
        _ => Err(ObservationError::Malformed("duplicate netifd interface identity".to_string())),
    }
}

/// The outcome of a device-local observation: the judgement of some reply
/// the transport gave; any other expectation is unsupported here.
pub open spec fn observed_outcome(spec: ProbeSpec, o: Outcome) -> bool {
    match spec.expectation {
        Expectation::UciValue { package, section, option, form, values } => exists|ss: Seq<ConfigSectionView>|
            (exists|reply: JsonValue| #[trigger] uci_get_spec(package@, reply) == Some(ss))
            && o == uci_value_outcome(ss, section@, option@, form, view_strings(values@)),
        Expectation::UciSection { package, section, section_type } => exists|ss: Seq<ConfigSectionView>|
            (exists|reply: JsonValue| #[trigger] uci_get_spec(package@, reply) == Some(ss))
            && o == uci_section_outcome(ss, section@, section_type@),
        Expectation::NetifdInterface { interface, up, addresses } => exists|c: OperationalCollectionView|
            (exists|reply: JsonValue| #[trigger] netifd_interfaces_spec(reply) == Some(c))
            && netifd_outcome(c, interface@, up, view_strings(addresses@)) == Some(o),
        _ => o == Outcome::Unsupported,
    }
}

/// The outcome judged from the reply this reader's transport actually gave
/// before deadline `d`: the committed sections of the package (`uci get`)
/// or the netifd interface dump; any other expectation is unsupported here.
pub open spec fn observed_by<T: UbusTransport>(reader: ReadOnlyUbus<T>, spec: ProbeSpec, d: u64, o: Outcome) -> bool {
    match spec.expectation {
        Expectation::UciValue { package, section, option, form, values } => exists|g: JsonValue|
            #[trigger] reader.package_read("uci"@, "get"@, package@, d, Ok(g)) && (uci_get_spec(package@, g) matches Some(ss)
                && o == uci_value_outcome(ss, section@, option@, form, view_strings(values@))),
        Expectation::UciSection { package, section, section_type } => exists|g: JsonValue|
            #[trigger] reader.package_read("uci"@, "get"@, package@, d, Ok(g)) && (uci_get_spec(package@, g) matches Some(ss)
                && o == uci_section_outcome(ss, section@, section_type@)),
        Expectation::NetifdInterface { interface, up, addresses } => exists|v: JsonValue|
            #[trigger] reader.session_read("network.interface"@, "dump"@, d, Ok(v)) && (netifd_interfaces_spec(v) matches Some(c)
                && netifd_outcome(c, interface@, up, view_strings(addresses@)) == Some(o)),
        _ => o == Outcome::Unsupported,
    }
}

/// Observing failed with `e` before deadline `d`: the read of the
/// package's committed sections or of the interface dump failed, or the
/// dump does not name the interface's state.
pub open spec fn observation_failed<T: UbusTransport>(reader: ReadOnlyUbus<T>, spec: ProbeSpec, d: u64, e: ObservationError) -> bool {
    match spec.expectation {
        Expectation::UciValue { package, .. } => reader.committed_failed(package@, d, e),
        Expectation::UciSection { package, .. } => reader.committed_failed(package@, d, e),
        Expectation::NetifdInterface { interface, up, addresses } => reader.read_failed(
            "network.interface"@,
            "dump"@,
            |v: JsonValue| netifd_interfaces_spec(v) is Some,
            d,
            e,
        ) || (e is Malformed && reader.all_granted(d) && exists|v: JsonValue| #[trigger] reader.session_read("network.interface"@, "dump"@, d, Ok(v))
            && (netifd_interfaces_spec(v) matches Some(c) && netifd_outcome(c, interface@, up, view_strings(addresses@)) is None)),
        _ => false,
    }
}

/// A device-local expectation: a UCI value or section, or a netifd interface.
pub open spec fn local_expectation(x: Expectation) -> bool {
    x is UciValue || x is UciSection || x is NetifdInterface
}

/// A UCI expectation naming an invalid package.
pub open spec fn uci_package_bad(x: Expectation) -> bool {
    match x {
        Expectation::UciValue { package, .. } => !package_ok(package@),
        Expectation::UciSection { package, .. } => !package_ok(package@),
        _ => false,
    }
}

/// Observes the committed UCI state or netifd interfaces the expectation
/// names, and judges it.
pub fn observe<T: UbusTransport>(spec: &ProbeSpec, reader: &ReadOnlyUbus<T>) -> (r: Result<(Outcome, String), ObservationError>)
    ensures
        r matches Ok(x) ==> observed_outcome(*spec, x.0),
        local_expectation(spec.expectation) && !uci_package_bad(spec.expectation) ==> exists|d: u64| #[trigger] reader.deadline_from(d)
            && match r {
            Ok(x) => observed_by(*reader, *spec, d, x.0),
            Err(e) => observation_failed(*reader, *spec, d, e),
        },
        match spec.expectation {
            Expectation::UciValue { package, .. } => !package_ok(package@) ==> r matches Err(ObservationError::Malformed(_)),
            Expectation::UciSection { package, .. } => !package_ok(package@) ==> r matches Err(ObservationError::Malformed(_)),
            Expectation::NetifdInterface { .. } => true,
            _ => r matches Ok(x) && x.0 == Outcome::Unsupported && x.1@ == "expectation is not a device-local observation"@,
        },
{
    match &spec.expectation {
        Expectation::UciValue { package, section, option, form, values } => {
            let sections = reader.committed_sections(package.as_str())?;
            Ok(judge_uci_value(&sections, section, option, *form, values))
        },
        Expectation::UciSection { package, section, section_type } => {
            let sections = reader.committed_sections(package.as_str())?;
            Ok(judge_uci_section(&sections, section, section_type))
        },
        Expectation::NetifdInterface { interface, up, addresses } => {
            let collection = reader.interfaces()?;
            judge_netifd(&collection, interface, *up, addresses)
        },
        _ => Ok((Outcome::Unsupported, "expectation is not a device-local observation".to_string())),
    }
}

/// The outcome a matching, valid probe's observation gave through this
/// transport: a reader it cannot open is malformed; otherwise the reader,
/// opened with the session and the probe's limits, judged what the
/// transport answered before a deadline, or its failure is reported.
pub open spec fn executed_by<T: UbusTransport>(spec: ProbeSpec, local: LocalObservationContext, transport: T, o: Outcome) -> bool {
    if !(session_id_ok(local.rpcd_session@) && spec.limits.timeout_ms > 0 && spec.limits.max_response_bytes > 0) {
        o == Outcome::MalformedResponse
    } else if uci_package_bad(spec.expectation) {
        o == Outcome::MalformedResponse
    } else if !local_expectation(spec.expectation) {
        o == Outcome::Unsupported
    } else {
        exists|u: ReadOnlyUbus<T>, d: u64|
            #![trigger u.deadline_from(d)]
            u.spec_transport() == transport && u.session() == local.rpcd_session@ && u.spec_timeout() == spec.limits.timeout_ms
                && u.spec_max_response() == spec.limits.max_response_bytes as usize && u.deadline_from(d) && (observed_by(u, spec, d, o)
                || exists|e: ObservationError| #[trigger] observation_failed(u, spec, d, e) && o == observation_error_spec(e))
    }
}

/// Runs a device-local probe with the installed context: an invalid probe
/// is unsupported; a probe for another device or source is unavailable; an
/// observation that outlasts the probe's timeout is a timeout. Times are
/// measured on the transport's monotonic clock from `started_at_ms`.
pub fn execute<T: UbusTransport>(spec: &ProbeSpec, local: &LocalObservationContext, transport: T, started_at_ms: u64)
    -> (r: ProbeResult)
    ensures
        r.probe_id@ == spec.id@,
        r.started_at_ms == started_at_ms,
        !valid_probe(spec@) ==> r.outcome == Outcome::Unsupported,
        valid_probe(spec@) && (spec.device@ != local.device@ || spec.source@ != local.source@) ==> r.outcome == Outcome::Unavailable,
        valid_probe(spec@) && spec.device@ == local.device@ && spec.source@ == local.source@ ==> (r.outcome == Outcome::Timeout
            || r.outcome == Outcome::MalformedResponse || r.outcome == Outcome::Unsupported || r.outcome == Outcome::Unavailable
            || observed_outcome(*spec, r.outcome)),
        valid_probe(spec@) && spec.device@ == local.device@ && spec.source@ == local.source@ ==> (r.outcome == Outcome::Timeout
            && exists|t0: u64, t1: u64| #[trigger] transport.clock_read(t0) && #[trigger] transport.clock_read(t1) && t1 - t0
            > spec.limits.timeout_ms) || executed_by(*spec, *local, transport, r.outcome),
{
    let ghost tr = transport;
    let start = transport.now_ms();
    let (outcome, detail, end) = match validate_probe(spec) {
        Err(e) => (Outcome::Unsupported, e.message(), start),
        Ok(()) => {
            if !spec.device.same(&local.device) || !spec.source.same(&local.source) {
                (Outcome::Unavailable, "probe does not match installed local device and witness source".to_string(), start)
            } else {
                let budget = spec.limits.timeout_ms;
                let limit = spec.limits.max_response_bytes as usize;
                match ReadOnlyUbus::with_limits(transport, local.rpcd_session.clone(), budget, limit) {
                    Err(e) => {
                        let (o, d) = observation_error(e);
                        (o, d, start)
                    },
                    Ok(reader) => {
                        let obs = observe(spec, &reader);
                        let ghost seen = obs;
                        let (o, d) = match obs {
                            Ok(x) => x,
                            Err(e) => observation_error(e),
                        };
                        proof {
                            if local_expectation(spec.expectation) && !uci_package_bad(spec.expectation) {
                                let dl = choose|dl: u64| #[trigger] reader.deadline_from(dl) && match seen {
                                    Ok(x) => observed_by(reader, *spec, dl, x.0),
                                    Err(e) => observation_failed(reader, *spec, dl, e),
                                };
                                match seen {
                                    Ok(x) => {
                                        assert(observed_by(reader, *spec, dl, o));
                                    },
                                    Err(e) => {
                                        assert(observation_failed(reader, *spec, dl, e) && o == observation_error_spec(e));
                                    },
                                }
                                assert(reader.deadline_from(dl));
                                assert(executed_by(*spec, *local, tr, o));
                            }
                        }
                        let end = reader.transport().now_ms();
                        if end.saturating_sub(start) > budget {
                            (Outcome::Timeout, "local observation exceeded invocation deadline".to_string(), end)
                        } else {
                            (o, d, end)
                        }
                    },
                }
            }
        },
    };
    ProbeResult {
        probe_id: spec.id.clone(),
        outcome,
        started_at_ms,
        finished_at_ms: started_at_ms.saturating_add(end.saturating_sub(start)),
        detail,
    }
}

} // verus!

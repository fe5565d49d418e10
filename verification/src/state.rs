//! Observed configuration and operational state on the wire.
use crate::protocol::{DeviceBinding, RevisionRef, SourceSpan, PROTOCOL_VERSION};
use crate::text::{chars_of, clone_strings, strings_eq, view_strings};
use vstd::prelude::*;

verus! {

#[derive(Debug, Clone, PartialEq, Eq)]
pub struct IntentRevision {
    pub version: u32,
    pub revision: RevisionRef,
    pub parent: Option<RevisionRef>,
    pub source: String,
    pub accepted_at_ms: u64,
}

#[derive(Debug, Clone, Copy, PartialEq, Eq, Structural)]
pub enum Datastore {
    Committed,
    SessionStaging,
    ConfigurationInUse,
    Operational,
}

#[derive(Debug, Clone, PartialEq, Eq)]
pub enum Completeness {
    Complete,
    Partial { missing: Vec<String> },
    Unavailable { reason: String },
}

#[derive(Debug, Clone, PartialEq, Eq)]
pub struct CollectionScope {
    pub objects: Vec<String>,
    pub datastore: Datastore,
    pub session_id: Option<String>,
    pub completeness: Completeness,
}

/// The array order of sections, fields and list entries is meaningful.
#[derive(Debug, Clone, PartialEq, Eq)]
pub struct ConfigSection {
    pub package: String,
    pub section: String,
    pub kind: String,
    pub fields: Vec<ConfigField>,
}

#[derive(Debug, Clone, PartialEq, Eq)]
pub enum ConfigField {
    Option { name: String, value: String },
    List { name: String, values: Vec<String> },
    Redacted { name: String },
}

pub enum ConfigFieldView {
    Option { name: Seq<char>, value: Seq<char> },
    List { name: Seq<char>, values: Seq<Seq<char>> },
    Redacted { name: Seq<char> },
}

impl ConfigFieldView {
    pub open spec fn name(self) -> Seq<char> {
        match self {
            ConfigFieldView::Option { name, .. } => name,
            ConfigFieldView::List { name, .. } => name,
            ConfigFieldView::Redacted { name } => name,
        }
    }
}

impl View for ConfigField {
    type V = ConfigFieldView;
    open spec fn view(&self) -> ConfigFieldView {
        match self {
            ConfigField::Option { name, value } => ConfigFieldView::Option { name: name@, value: value@ },
            ConfigField::List { name, values } => ConfigFieldView::List { name: name@, values: view_strings(values@) },
            ConfigField::Redacted { name } => ConfigFieldView::Redacted { name: name@ },
        }
    }
}

pub struct ConfigSectionView {
    pub package: Seq<char>,
    pub section: Seq<char>,
    pub kind: Seq<char>,
    pub fields: Seq<ConfigFieldView>,
}

pub open spec fn view_fields(v: Seq<ConfigField>) -> Seq<ConfigFieldView> {
    v.map_values(|f: ConfigField| f@)
}

pub open spec fn view_sections(v: Seq<ConfigSection>) -> Seq<ConfigSectionView> {
    v.map_values(|s: ConfigSection| s@)
}

impl View for ConfigSection {
    type V = ConfigSectionView;
    open spec fn view(&self) -> ConfigSectionView {
        ConfigSectionView { package: self.package@, section: self.section@, kind: self.kind@, fields: view_fields(self.fields@) }
    }
}

impl ConfigField {
    pub fn name(&self) -> (r: &String)
        ensures
            r@ == self@.name(),
    {
        match self {
            ConfigField::Option { name, .. } => name,
            ConfigField::List { name, .. } => name,
            ConfigField::Redacted { name } => name,
        }
    }

    pub fn same(&self, other: &ConfigField) -> (r: bool)
        ensures
            r == (self@ == other@),
    {
        match (self, other) {
            (ConfigField::Option { name: a, value: b }, ConfigField::Option { name: c, value: d }) => *a == *c && *b == *d,
            (ConfigField::List { name: a, values: b }, ConfigField::List { name: c, values: d }) => *a == *c && strings_eq(b, d),
            (ConfigField::Redacted { name: a }, ConfigField::Redacted { name: c }) => *a == *c,
            _ => false,
        }
    }

    pub fn duplicate(&self) -> (r: ConfigField)
        ensures
            r@ == self@,
    {
        match self {
            ConfigField::Option { name, value } => ConfigField::Option { name: name.clone(), value: value.clone() },
            ConfigField::List { name, values } => ConfigField::List { name: name.clone(), values: clone_strings(values) },
            ConfigField::Redacted { name } => ConfigField::Redacted { name: name.clone() },
        }
    }
}

pub fn clone_fields(v: &Vec<ConfigField>) -> (r: Vec<ConfigField>)
    ensures
        view_fields(r@) == view_fields(v@),
{
    let mut out: Vec<ConfigField> = Vec::new();
    let mut i: usize = 0;
    while i < v.len()
        invariant
            i <= v@.len(),
            out@.len() == i,
            forall|j: int| 0 <= j < i ==> out@[j]@ == v@[j]@,
        decreases v@.len() - i,
    {
        out.push(v[i].duplicate());
        i = i + 1;
    }
    assert(view_fields(out@) =~= view_fields(v@));
    out
}

impl ConfigSection {
    pub fn duplicate(&self) -> (r: ConfigSection)
        ensures
            r@ == self@,
    {
        ConfigSection {
            package: self.package.clone(),
            section: self.section.clone(),
            kind: self.kind.clone(),
            fields: clone_fields(&self.fields),
        }
    }
}

pub fn clone_sections(v: &[ConfigSection]) -> (r: Vec<ConfigSection>)
    ensures
        view_sections(r@) == view_sections(v@),
{
    let mut out: Vec<ConfigSection> = Vec::new();
    let mut i: usize = 0;
    while i < v.len()
        invariant
            i <= v@.len(),
            out@.len() == i,
            forall|j: int| 0 <= j < i ==> out@[j]@ == v@[j]@,
        decreases v@.len() - i,
    {
        out.push(v[i].duplicate());
        i = i + 1;
    }
    assert(view_sections(out@) =~= view_sections(v@));
    out
}

pub open spec fn ascii_lower(c: char) -> char {
    if 'A' <= c && c <= 'Z' { ((c as u32) + 32) as char } else { c }
}

pub open spec fn contains_at(hay: Seq<char>, needle: Seq<char>, i: int) -> bool {
    0 <= i && i + needle.len() <= hay.len() && hay.subrange(i, i + needle.len()) == needle
}

pub open spec fn contains_seq(hay: Seq<char>, needle: Seq<char>) -> bool {
    exists|i: int| contains_at(hay, needle, i)
}

pub open spec fn sensitive_words() -> Seq<Seq<char>> {
    seq![
        seq!['p', 'a', 's', 's', 'w', 'o', 'r', 'd'],
        seq!['p', 'a', 's', 's', 'w', 'd'],
        seq!['s', 'e', 'c', 'r', 'e', 't'],
        seq!['k', 'e', 'y'],
        seq!['t', 'o', 'k', 'e', 'n'],
        seq!['c', 'r', 'e', 'd', 'e', 'n', 't', 'i', 'a', 'l'],
    ]
}

/// Conservative shared boundary for values that must never enter evidence,
/// plans, history, or telemetry: the ASCII-lowercased name contains one of
/// the credential words.
pub open spec fn sensitive_field_spec(name: Seq<char>) -> bool {
    exists|w: int| 0 <= w < sensitive_words().len() && contains_seq(name.map_values(|c: char| ascii_lower(c)), #[trigger] sensitive_words()[w])
}

fn lower_char(c: char) -> (r: char)
    ensures
        r == ascii_lower(c),
{
    if 'A' <= c && c <= 'Z' {
        let u = ((c as u32) + 32) as u8;
        u as char
    } else {
        c
    }
}

pub(crate) fn contains_chars(hay: &Vec<char>, needle: &[char]) -> (r: bool)
    requires
        needle@.len() > 0,
    ensures
        r == contains_seq(hay@, needle@),
{
    if needle.len() > hay.len() {
        assert forall|i: int| !contains_at(hay@, needle@, i) by {}
        return false;
    }
    let mut i: usize = 0;
    let last = hay.len() - needle.len();
    while i <= last
        invariant
            last == hay@.len() - needle@.len(),
            needle@.len() > 0,
            hay@.len() <= usize::MAX,
            needle@.len() <= hay@.len(),
            i <= hay@.len() - needle@.len() + 1,
            forall|k: int| 0 <= k < i ==> !contains_at(hay@, needle@, k),
        decreases hay@.len() - i,
    {
        let mut j: usize = 0;
        let mut ok = true;
        while j < needle.len()
            invariant
                i <= last,
                last == hay@.len() - needle@.len(),
                hay@.len() <= usize::MAX,
                i + needle@.len() <= hay@.len(),
                j <= needle@.len(),
                ok == (forall|k: int| 0 <= k < j ==> hay@[i + k] == needle@[k]),
            decreases needle@.len() - j,
        {
            if hay[i + j] != needle[j] {
                ok = false;
            }
            j = j + 1;
        }
        if ok {
            assert(hay@.subrange(i as int, i + needle@.len()) =~= needle@);
            assert(contains_at(hay@, needle@, i as int));
            return true;
        }
        assert(!contains_at(hay@, needle@, i as int)) by {
            if contains_at(hay@, needle@, i as int) {
                let k = choose|k: int| 0 <= k < needle@.len() && hay@[i + k] != needle@[k];
                assert(hay@.subrange(i as int, i + needle@.len())[k] == needle@[k]);
            }
        }
        i = i + 1;
    }
    assert forall|k: int| !contains_at(hay@, needle@, k) by {}
    false
}

/// The string's characters with ASCII letters lowercased.
pub(crate) fn ascii_lowercase(s: &str) -> (r: Vec<char>)
    ensures
        r@ == s@.map_values(|c: char| ascii_lower(c)),
{
    let chars = chars_of(s);
    let mut lower: Vec<char> = Vec::new();
    let mut i: usize = 0;
    while i < chars.len()
        invariant
            chars@ == s@,
            i <= chars@.len(),
            lower@ =~= chars@.subrange(0, i as int).map_values(|c: char| ascii_lower(c)),
        decreases chars@.len() - i,
    {
        lower.push(lower_char(chars[i]));
        i = i + 1;
        assert(lower@ =~= chars@.subrange(0, i as int).map_values(|c: char| ascii_lower(c)));
    }
    assert(chars@.subrange(0, chars@.len() as int) =~= chars@);
    lower
}

/// Whether a configuration field name must be treated as a secret.
pub fn sensitive_field(name: &str) -> (r: bool)
    ensures
        r == sensitive_field_spec(name@),
{
    let lower = ascii_lowercase(name);
    let ghost l = name@.map_values(|c: char| ascii_lower(c));
    let w0 = ['p', 'a', 's', 's', 'w', 'o', 'r', 'd'];
    let w1 = ['p', 'a', 's', 's', 'w', 'd'];
    let w2 = ['s', 'e', 'c', 'r', 'e', 't'];
    let w3 = ['k', 'e', 'y'];
    let w4 = ['t', 'o', 'k', 'e', 'n'];
    let w5 = ['c', 'r', 'e', 'd', 'e', 'n', 't', 'i', 'a', 'l'];
    assert(w0@ =~= sensitive_words()[0]);
    assert(w1@ =~= sensitive_words()[1]);
    assert(w2@ =~= sensitive_words()[2]);
    assert(w3@ =~= sensitive_words()[3]);
    assert(w4@ =~= sensitive_words()[4]);
    assert(w5@ =~= sensitive_words()[5]);
    let r = contains_chars(&lower, &w0) || contains_chars(&lower, &w1) || contains_chars(&lower, &w2)
        || contains_chars(&lower, &w3) || contains_chars(&lower, &w4) || contains_chars(&lower, &w5);
    proof {
        if sensitive_field_spec(name@) {
            let w = choose|w: int| 0 <= w < sensitive_words().len() && contains_seq(l, #[trigger] sensitive_words()[w]);
            assert(0 <= w < 6);
        }
        if r {
            if contains_seq(l, w0@) { assert(contains_seq(l, sensitive_words()[0])); }
            if contains_seq(l, w1@) { assert(contains_seq(l, sensitive_words()[1])); }
            if contains_seq(l, w2@) { assert(contains_seq(l, sensitive_words()[2])); }
            if contains_seq(l, w3@) { assert(contains_seq(l, sensitive_words()[3])); }
            if contains_seq(l, w4@) { assert(contains_seq(l, sensitive_words()[4])); }
            if contains_seq(l, w5@) { assert(contains_seq(l, sensitive_words()[5])); }
        }
    }
    r
}

#[derive(Debug, Clone, PartialEq, Eq)]
pub struct ObservationMetadata {
    pub version: u32,
    pub id: String,
    pub device: DeviceBinding,
    pub collector_identity: String,
    pub collected_at_ms: u64,
    pub received_at_ms: u64,
    pub interval_ms: u64,
    pub invocation_timeout_ms: u64,
    pub scope: CollectionScope,
    pub origin: String,
}

pub open spec fn sat_mul(a: u64, b: u64) -> u64 {
    if a * b > u64::MAX { u64::MAX } else { (a * b) as u64 }
}

pub open spec fn sat_add(a: u64, b: u64) -> u64 {
    if a + b > u64::MAX { u64::MAX } else { (a + b) as u64 }
}

pub open spec fn sat_sub(a: u64, b: u64) -> u64 {
    if a < b { 0 } else { (a - b) as u64 }
}

/// The freshness horizon of an observation: three intervals plus one
/// invocation timeout, saturating at the largest timestamp.
pub open spec fn freshness_window(interval_ms: u64, timeout_ms: u64) -> u64 {
    sat_add(sat_mul(interval_ms, 3), timeout_ms)
}

pub fn saturating_mul_u64(a: u64, b: u64) -> (r: u64)
    ensures
        r == sat_mul(a, b),
{
    match a.checked_mul(b) {
        Some(v) => v,
        None => u64::MAX,
    }
}

pub fn freshness_window_exec(interval_ms: u64, timeout_ms: u64) -> (r: u64)
    ensures
        r == freshness_window(interval_ms, timeout_ms),
{
    saturating_mul_u64(interval_ms, 3).saturating_add(timeout_ms)
}

impl ObservationMetadata {
    pub open spec fn fresh_at_spec(&self, now_ms: u64) -> bool {
        &&& self.version == PROTOCOL_VERSION
        &&& self.collected_at_ms <= now_ms
        &&& self.received_at_ms <= now_ms
        &&& self.interval_ms > 0
        &&& self.invocation_timeout_ms > 0
        &&& sat_sub(now_ms, self.collected_at_ms) <= freshness_window(self.interval_ms, self.invocation_timeout_ms)
        &&& self.scope.completeness is Complete
    }

    /// A current, complete observation collected within its freshness window.
    pub fn fresh_at(&self, now_ms: u64) -> (r: bool)
        ensures
            r == self.fresh_at_spec(now_ms),
    {
        self.version == PROTOCOL_VERSION && self.collected_at_ms <= now_ms
            && self.received_at_ms <= now_ms && self.interval_ms > 0
            && self.invocation_timeout_ms > 0
            && now_ms.saturating_sub(self.collected_at_ms) <= freshness_window_exec(
            self.interval_ms,
            self.invocation_timeout_ms,
        ) && matches!(self.scope.completeness, Completeness::Complete)
    }
}

#[derive(Debug, Clone, PartialEq, Eq)]
pub struct ConfigurationSnapshot {
    pub metadata: ObservationMetadata,
    pub sections: Vec<ConfigSection>,
}

#[derive(Debug, Clone, PartialEq, Eq)]
pub struct OperationalSnapshot {
    pub metadata: ObservationMetadata,
    pub facts: Vec<OperationalFact>,
}

#[derive(Debug, Clone, PartialEq, Eq)]
pub enum OperationalFact {
    Interface { name: String, up: bool, device: Option<String>, addresses: Vec<String> },
    Device { name: String, present: bool, carrier: Option<bool>, members: Vec<String> },
    Route { interface: String, destination: String, gateway: Option<String>, active: bool },
    Wireless { name: String, up: bool, pending: bool },
}

#[derive(Debug, Clone, PartialEq, Eq)]
pub struct Ownership {
    pub version: u32,
    pub device: DeviceBinding,
    pub adopted_revision: RevisionRef,
    pub baseline_snapshot: String,
    pub fields: Vec<OwnedField>,
}

#[derive(Debug, Clone, PartialEq, Eq)]
pub struct OwnedField {
    pub package: String,
    pub section: String,
    pub field: String,
    pub source: SourceSpan,
}

/// An apply receipt records execution, never independent verification.
#[derive(Debug, Clone, PartialEq, Eq)]
pub struct ApplyReceipt {
    pub version: u32,
    pub operation_id: String,
    pub device: DeviceBinding,
    pub revision: RevisionRef,
    pub phase: String,
    pub agent_identity: String,
    pub recorded_at_ms: u64,
}

pub enum CompletenessView {
    Complete,
    Partial { missing: Seq<Seq<char>> },
    Unavailable { reason: Seq<char> },
}

impl View for Completeness {
    type V = CompletenessView;
    open spec fn view(&self) -> CompletenessView {
        match self {
            Completeness::Complete => CompletenessView::Complete,
            Completeness::Partial { missing } => CompletenessView::Partial { missing: view_strings(missing@) },
            Completeness::Unavailable { reason } => CompletenessView::Unavailable { reason: reason@ },
        }
    }
}

pub enum OperationalFactView {
    Interface { name: Seq<char>, up: bool, device: Option<Seq<char>>, addresses: Seq<Seq<char>> },
    Device { name: Seq<char>, present: bool, carrier: Option<bool>, members: Seq<Seq<char>> },
    Route { interface: Seq<char>, destination: Seq<char>, gateway: Option<Seq<char>>, active: bool },
    Wireless { name: Seq<char>, up: bool, pending: bool },
}

pub open spec fn view_opt(o: Option<String>) -> Option<Seq<char>> {
    match o {
        Some(s) => Some(s@),
        None => None,
    }
}

impl View for OperationalFact {
    type V = OperationalFactView;
    open spec fn view(&self) -> OperationalFactView {
        match self {
            OperationalFact::Interface { name, up, device, addresses } => OperationalFactView::Interface {
                name: name@,
                up: *up,
                device: view_opt(*device),
                addresses: view_strings(addresses@),
            },
            OperationalFact::Device { name, present, carrier, members } => OperationalFactView::Device {
                name: name@,
                present: *present,
                carrier: *carrier,
                members: view_strings(members@),
            },
            OperationalFact::Route { interface, destination, gateway, active } => OperationalFactView::Route {
                interface: interface@,
                destination: destination@,
                gateway: view_opt(*gateway),
                active: *active,
            },
            OperationalFact::Wireless { name, up, pending } => OperationalFactView::Wireless { name: name@, up: *up, pending: *pending },
        }
    }
}

pub open spec fn view_facts(v: Seq<OperationalFact>) -> Seq<OperationalFactView> {
    v.map_values(|f: OperationalFact| f@)
}

} // verus!

//! Read-only OpenWrt observation contracts and strict response parsers.
//! Replies are JSON values; anything outside the expected shape is
//! malformed, never an empty success.
use crate::identity::decimal;
use crate::net::{parse_ip, parse_ip_spec, IpAddr};
use crate::protocol::{all_ascii, ascii_chars, ascii_string, concat_str};
use crate::state::{
    sensitive_field, sensitive_field_spec, view_facts, view_fields, view_sections, Completeness, CompletenessView, ConfigField,
    ConfigFieldView, ConfigSection, ConfigSectionView, OperationalFact, OperationalFactView,
};
use crate::text::{byte_len, chars_of, has_control, has_control_spec, is_ascii_alnum, str_eq, str_len, view_strings};
use vstd::prelude::*;

verus! {

/// A JSON value as delivered by rpcd. A number carries its value when it is
/// a non-negative integer that fits in 64 bits.
pub enum JsonValue {
    Null,
    Bool(bool),
    Number(Option<u64>),
    String(String),
    Array(Vec<JsonValue>),
    Object(Vec<(String, JsonValue)>),
}

#[derive(Debug, Clone, PartialEq, Eq)]
pub enum ObservationError {
    UnsupportedMethod { object: String, method: String },
    Unavailable(String),
    Timeout,
    Denied(String),
    ResponseTooLarge,
    Malformed(String),
}

/// The first entry with this key.
pub open spec fn lookup(entries: Seq<(String, JsonValue)>, key: Seq<char>) -> Option<JsonValue>
    decreases entries.len(),
{
    if entries.len() == 0 {
        None
    } else if entries[0].0@ == key {
        Some(entries[0].1)
    } else {
        lookup(entries.drop_first(), key)
    }
}

pub open spec fn member(v: JsonValue, key: Seq<char>) -> Option<JsonValue> {
    match v {
        JsonValue::Object(es) => lookup(es@, key),
        _ => None,
    }
}

pub fn lookup_exec<'a>(entries: &'a Vec<(String, JsonValue)>, key: &str) -> (r: Option<&'a JsonValue>)
    ensures
        match r {
            Some(v) => lookup(entries@, key@) == Some(*v),
            None => lookup(entries@, key@) is None,
        },
{
    let mut i: usize = 0;
    assert(entries@.subrange(0, entries@.len() as int) =~= entries@);
    while i < entries.len()
        invariant
            i <= entries@.len(),
            lookup(entries@, key@) == lookup(entries@.subrange(i as int, entries@.len() as int), key@),
        decreases entries@.len() - i,
    {
        let ghost rest = entries@.subrange(i as int, entries@.len() as int);
        assert(rest[0] == entries@[i as int]);
        assert(rest.drop_first() =~= entries@.subrange(i + 1, entries@.len() as int));
        if str_eq(entries[i].0.as_str(), key) {
            return Some(&entries[i].1);
        }
        i = i + 1;
    }
    assert(entries@.subrange(i as int, entries@.len() as int).len() == 0);
    None
}

impl JsonValue {
    pub fn get(&self, key: &str) -> (r: Option<&JsonValue>)
        ensures
            match r {
                Some(v) => member(*self, key@) == Some(*v),
                None => member(*self, key@) is None,
            },
    {
        match self {
            JsonValue::Object(es) => lookup_exec(es, key),
            _ => None,
        }
    }
}

/// No two entries of the object share a key.
pub open spec fn keys_distinct(es: Seq<(String, JsonValue)>) -> bool {
    forall|i: int, j: int| 0 <= i < j < es.len() ==> (#[trigger] es[i]).0@ != (#[trigger] es[j]).0@
}

/// The number of direct members of an array or object.
pub open spec fn member_count(v: JsonValue) -> nat {
    match v {
        JsonValue::Array(items) => items@.len(),
        JsonValue::Object(es) => es@.len(),
        _ => 0,
    }
}

/// The `k`th direct member of an array, or value of an object.
pub open spec fn member_at(v: JsonValue, k: int) -> JsonValue {
    match v {
        JsonValue::Array(items) => items@[k],
        JsonValue::Object(es) => es@[k].1,
        _ => JsonValue::Null,
    }
}

/// No object anywhere in the value repeats a key.
pub open spec fn strict_json(v: JsonValue) -> bool
    decreases v, 1nat, 0nat,
{
    (v matches JsonValue::Object(es) ==> keys_distinct(es@)) && members_strict(v, member_count(v))
}

/// The first `n` members of `v` repeat no key at any depth.
pub open spec fn members_strict(v: JsonValue, n: nat) -> bool
    decreases v, 0nat, n,
{
    if n == 0 {
        true
    } else {
        members_strict(v, (n - 1) as nat) && (n - 1 < member_count(v) ==> {
            proof {
                if n - 1 < member_count(v) {
                    match v {
                        JsonValue::Array(items) => {
                            assert(decreases_to!(v => v->Array_0));
                            assert(decreases_to!(items => items@));
                            assert(decreases_to!(items@ => items@[n - 1]));
                        },
                        JsonValue::Object(es) => {
                            assert(decreases_to!(v => v->Object_0));
                            assert(decreases_to!(es => es@));
                            assert(decreases_to!(es@ => es@[n - 1]));
                            assert(decreases_to!(es@[n - 1] => es@[n - 1].1));
                        },
                        _ => {},
                    }
                }
            }
            strict_json(member_at(v, n - 1))
        })
    }
}

fn keys_distinct_exec(es: &Vec<(String, JsonValue)>) -> (r: bool)
    ensures
        r == keys_distinct(es@),
{
    let mut i: usize = 0;
    while i < es.len()
        invariant
            i <= es@.len(),
            forall|a: int, b: int| 0 <= a < b < i ==> (#[trigger] es@[a]).0@ != (#[trigger] es@[b]).0@,
        decreases es@.len() - i,
    {
        let mut j: usize = 0;
        while j < i
            invariant
                j <= i < es@.len(),
                forall|a: int| 0 <= a < j ==> (#[trigger] es@[a]).0@ != es@[i as int].0@,
            decreases i - j,
        {
            if str_eq(es[j].0.as_str(), es[i].0.as_str()) {
                return false;
            }
            j = j + 1;
        }
        i = i + 1;
    }
    true
}

fn member_ref(v: &JsonValue, k: usize) -> (r: &JsonValue)
    requires
        k < member_count(*v),
    ensures
        *r == member_at(*v, k as int),
        decreases_to!(*v => *r),
{
    match v {
        JsonValue::Array(items) => {
            assert(decreases_to!(*v => (*v)->Array_0));
            assert(decreases_to!(*items => items@));
            assert(decreases_to!(items@ => items@[k as int]));
            &items[k]
        },
        JsonValue::Object(es) => {
            assert(decreases_to!(*v => (*v)->Object_0));
            assert(decreases_to!(*es => es@));
            assert(decreases_to!(es@ => es@[k as int]));
            assert(decreases_to!(es@[k as int] => es@[k as int].1));
            &es[k].1
        },
        _ => {
            assert(false);
            v
        },
    }
}

fn strict_json_exec(v: &JsonValue) -> (r: bool)
    ensures
        r == strict_json(*v),
    decreases v,
{
    let n: usize = match v {
        JsonValue::Array(items) => items.len(),
        JsonValue::Object(es) => {
            if !keys_distinct_exec(es) {
                return false;
            }
            es.len()
        },
        _ => 0,
    };
    let mut i: usize = 0;
    while i < n
        invariant
            i <= n,
            n == member_count(*v),
            members_strict(*v, i as nat),
        decreases n - i,
    {
        let child = member_ref(v, i);
        if !strict_json_exec(child) {
            proof {
                assert(!members_strict(*v, (i + 1) as nat));
                if members_strict(*v, n as nat) {
                    lemma_members_prefix(*v, (i + 1) as nat, n as nat);
                }
            }
            return false;
        }
        i = i + 1;
    }
    true
}

proof fn lemma_members_prefix(v: JsonValue, m: nat, n: nat)
    requires
        m <= n,
        members_strict(v, n),
    ensures
        members_strict(v, m),
    decreases n - m,
{
    if m < n {
        lemma_members_prefix(v, m, (n - 1) as nat);
    }
}

/// Accepts a reply only when no object in it, at any depth, repeats a key:
/// a reply is evidence, and a repeated key makes it ambiguous.
pub fn strict_response_json(v: JsonValue) -> (r: Result<JsonValue, ObservationError>)
    ensures
        strict_json(v) ==> r == Ok::<JsonValue, ObservationError>(v),
        !strict_json(v) ==> (r matches Err(ObservationError::Malformed(m)) && m@ == "invalid or duplicate-key libubus JSON"@),
{
    if strict_json_exec(&v) {
        Ok(v)
    } else {
        Err(ObservationError::Malformed("invalid or duplicate-key libubus JSON".to_string()))
    }
}

/// Nonempty, at most 256 bytes, and free of control characters.
pub open spec fn text_ok(s: Seq<char>) -> bool {
    s.len() > 0 && byte_len(s) <= 256 && !has_control_spec(s)
}

pub open spec fn required_string_spec(v: Option<JsonValue>) -> Option<Seq<char>> {
    match v {
        Some(JsonValue::String(s)) => if text_ok(s@) { Some(s@) } else { None },
        _ => None,
    }
}

fn malformed(message: &str) -> (e: ObservationError)
    ensures
        e matches ObservationError::Malformed(m) && m@ == message@,
{
    ObservationError::Malformed(message.to_string())
}

fn required_string<'a>(value: Option<&'a JsonValue>, field: &str) -> (r: Result<&'a String, ObservationError>)
    ensures
        match r {
            Ok(s) => required_string_spec(match value { Some(v) => Some(*v), None => None }) == Some(s@),
            Err(e) => e is Malformed && required_string_spec(match value { Some(v) => Some(*v), None => None }) is None,
        },
{
    match value {
        Some(JsonValue::String(s)) => {
            if !crate::text::str_empty(s) && str_len(s) <= 256 && !has_control(s.as_str()) {
                Ok(s)
            } else {
                Err(malformed("missing or invalid string field"))
            }
        },
        _ => Err(malformed("missing or invalid string field")),
    }
}

pub open spec fn optional_string_spec(v: Option<JsonValue>) -> Option<Option<Seq<char>>> {
    match v {
        None => Some(None),
        Some(x) => match required_string_spec(Some(x)) {
            Some(s) => Some(Some(s)),
            None => None,
        },
    }
}

fn optional_string(value: Option<&JsonValue>, field: &str) -> (r: Result<Option<String>, ObservationError>)
    ensures
        match r {
            Ok(o) => optional_string_spec(match value { Some(v) => Some(*v), None => None })
                == Some(match o { Some(s) => Some(s@), None => None::<Seq<char>> }),
            Err(e) => e is Malformed && optional_string_spec(match value { Some(v) => Some(*v), None => None }) is None,
        },
{
    match value {
        None => Ok(None),
        Some(v) => match required_string(Some(v), field) {
            Ok(s) => Ok(Some(s.clone())),
            Err(e) => Err(e),
        },
    }
}

pub open spec fn required_bool_spec(v: Option<JsonValue>) -> Option<bool> {
    match v {
        Some(JsonValue::Bool(b)) => Some(b),
        _ => None,
    }
}

fn required_bool(value: Option<&JsonValue>, field: &str) -> (r: Result<bool, ObservationError>)
    ensures
        match r {
            Ok(b) => required_bool_spec(match value { Some(v) => Some(*v), None => None }) == Some(b),
            Err(e) => e is Malformed && required_bool_spec(match value { Some(v) => Some(*v), None => None }) is None,
        },
{
    match value {
        Some(JsonValue::Bool(b)) => Ok(*b),
        _ => Err(malformed("missing or invalid boolean field")),
    }
}

/// Every item is a valid string.
pub open spec fn strings_spec(items: Seq<JsonValue>) -> Option<Seq<Seq<char>>>
    decreases items.len(),
{
    if items.len() == 0 {
        Some(Seq::empty())
    } else {
        match (strings_spec(items.drop_last()), required_string_spec(Some(items.last()))) {
            (Some(pre), Some(s)) => Some(pre.push(s)),
            _ => None,
        }
    }
}

fn strings_of(items: &Vec<JsonValue>, field: &str) -> (r: Result<Vec<String>, ObservationError>)
    ensures
        match r {
            Ok(v) => strings_spec(items@) == Some(view_strings(v@)),
            Err(e) => e is Malformed && strings_spec(items@) is None,
        },
{
    let mut out: Vec<String> = Vec::new();
    let mut i: usize = 0;
    while i < items.len()
        invariant
            i <= items@.len(),
            strings_spec(items@.subrange(0, i as int)) == Some(view_strings(out@)),
        decreases items@.len() - i,
    {
        let ghost pre = items@.subrange(0, i as int);
        let ghost next = items@.subrange(0, i + 1);
        assert(next.drop_last() =~= pre);
        assert(next.last() == items@[i as int]);
        match required_string(Some(&items[i]), field) {
            Ok(s) => {
                out.push(s.clone());
                assert(view_strings(out@) =~= view_strings(out@.drop_last()).push(s@));
            },
            Err(e) => {
                proof {
                    lemma_strings_prefix(items@, i as int + 1);
                }
                return Err(e);
            },
        }
        i = i + 1;
    }
    assert(items@.subrange(0, items@.len() as int) =~= items@);
    Ok(out)
}

proof fn lemma_strings_prefix(items: Seq<JsonValue>, n: int)
    requires
        0 <= n <= items.len(),
        strings_spec(items.subrange(0, n)) is None,
    ensures
        strings_spec(items) is None,
    decreases items.len() - n,
{
    if n < items.len() {
        let next = items.subrange(0, n + 1);
        assert(next.drop_last() =~= items.subrange(0, n));
        lemma_strings_prefix(items, n + 1);
    } else {
        assert(items.subrange(0, n) =~= items);
    }
}

pub open spec fn string_array_spec(v: Option<JsonValue>) -> Option<Seq<Seq<char>>> {
    match v {
        None => Some(Seq::empty()),
        Some(JsonValue::Array(items)) => strings_spec(items@),
        _ => None,
    }
}

fn string_array(value: Option<&JsonValue>, field: &str) -> (r: Result<Vec<String>, ObservationError>)
    ensures
        match r {
            Ok(v) => string_array_spec(match value { Some(x) => Some(*x), None => None }) == Some(view_strings(v@)),
            Err(e) => e is Malformed && string_array_spec(match value { Some(x) => Some(*x), None => None }) is None,
        },
{
    match value {
        None => {
            let v: Vec<String> = Vec::new();
            assert(view_strings(v@) =~= Seq::<Seq<char>>::empty());
            Ok(v)
        },
        Some(JsonValue::Array(items)) => strings_of(items, field),
        Some(_) => Err(malformed("field is not an array")),
    }
}

/// The only ubus methods this boundary will ever invoke.
pub open spec fn read_only_method_spec(object: Seq<char>, method: Seq<char>) -> bool {
    ||| (object == "session"@ && method == "access"@)
    ||| (object == "uci"@ && method == "changes"@)
    ||| (object == "uci"@ && method == "get"@)
    ||| (object == "network.interface"@ && method == "dump"@)
    ||| (object == "network.device"@ && method == "status"@)
    ||| (object == "network.wireless"@ && method == "status"@)
}

pub fn read_only_method(object: &str, method: &str) -> (r: bool)
    ensures
        r == read_only_method_spec(object@, method@),
{
    (str_eq(object, "session") && str_eq(method, "access")) || (str_eq(object, "uci") && str_eq(method, "changes"))
        || (str_eq(object, "uci") && str_eq(method, "get")) || (str_eq(object, "network.interface") && str_eq(method, "dump"))
        || (str_eq(object, "network.device") && str_eq(method, "status"))
        || (str_eq(object, "network.wireless") && str_eq(method, "status"))
}

/// The UCI packages a witness may read.
pub open spec fn package_ok(package: Seq<char>) -> bool {
    package == "network"@ || package == "dhcp"@ || package == "firewall"@ || package == "wireless"@
}

pub fn validate_package(package: &str) -> (r: Result<(), ObservationError>)
    ensures
        r is Ok <==> package_ok(package@),
        r matches Err(e) ==> e is Malformed,
{
    if str_eq(package, "network") || str_eq(package, "dhcp") || str_eq(package, "firewall") || str_eq(package, "wireless") {
        Ok(())
    } else {
        Err(malformed("package is outside read-only witness scope"))
    }
}

/// Nonempty, at most 128 bytes, only ASCII letters, digits, `_` and `-`.
pub open spec fn identifier_ok(s: Seq<char>) -> bool {
    &&& s.len() > 0
    &&& byte_len(s) <= 128
    &&& forall|i: int| 0 <= i < s.len() ==> (is_ascii_alnum(#[trigger] s[i]) || s[i] == '_' || s[i] == '-')
}

pub fn validate_identifier(value: &str, field: &str) -> (r: Result<(), ObservationError>)
    ensures
        r is Ok <==> identifier_ok(value@),
        r matches Err(e) ==> e is Malformed,
{
    let cs = chars_of(value);
    if cs.len() == 0 || value.as_bytes().len() > 128 {
        return Err(malformed("invalid identifier"));
    }
    let mut i: usize = 0;
    while i < cs.len()
        invariant
            cs@ == value@,
            i <= cs@.len(),
            forall|j: int| 0 <= j < i ==> (is_ascii_alnum(#[trigger] cs@[j]) || cs@[j] == '_' || cs@[j] == '-'),
        decreases cs@.len() - i,
    {
        let c = cs[i];
        if !(('0' <= c && c <= '9') || ('a' <= c && c <= 'z') || ('A' <= c && c <= 'Z') || c == '_' || c == '-') {
            return Err(malformed("invalid identifier"));
        }
        i = i + 1;
    }
    Ok(())
}

/// A UCI option: a string, a list of strings, or, for a sensitive name,
/// either of those redacted.
pub open spec fn uci_field_spec(name: Seq<char>, value: JsonValue) -> Option<ConfigFieldView> {
    if sensitive_field_spec(name) {
        match value {
            JsonValue::String(_) | JsonValue::Array(_) => Some(ConfigFieldView::Redacted { name }),
            _ => None,
        }
    } else {
        match value {
            JsonValue::String(s) => Some(ConfigFieldView::Option { name, value: s@ }),
            JsonValue::Array(items) => match strings_spec(items@) {
                Some(vs) => Some(ConfigFieldView::List { name, values: vs }),
                None => None,
            },
            _ => None,
        }
    }
}

fn parse_uci_field(name: &String, value: &JsonValue) -> (r: Result<ConfigField, ObservationError>)
    ensures
        match r {
            Ok(f) => uci_field_spec(name@, *value) == Some(f@),
            Err(e) => e is Malformed && uci_field_spec(name@, *value) is None,
        },
{
    if sensitive_field(name.as_str()) {
        return match value {
            JsonValue::String(_) | JsonValue::Array(_) => Ok(ConfigField::Redacted { name: name.clone() }),
            _ => Err(malformed("sensitive UCI field is not string/list")),
        };
    }
    match value {
        JsonValue::String(s) => Ok(ConfigField::Option { name: name.clone(), value: s.clone() }),
        JsonValue::Array(items) => match strings_of(items, name.as_str()) {
            Ok(values) => Ok(ConfigField::List { name: name.clone(), values }),
            Err(e) => Err(e),
        },
        _ => Err(malformed("UCI field is not string/list")),
    }
}

pub open spec fn is_metadata(name: Seq<char>) -> bool {
    name.len() > 0 && name[0] == '.'
}

pub open spec fn known_metadata(name: Seq<char>) -> bool {
    name == ".type"@ || name == ".name"@ || name == ".index"@ || name == ".anonymous"@
}

/// The options of a UCI section object, in reply order; known metadata
/// entries are skipped and unknown ones are malformed.
pub open spec fn uci_fields_spec(es: Seq<(String, JsonValue)>) -> Option<Seq<ConfigFieldView>>
    decreases es.len(),
{
    if es.len() == 0 {
        Some(Seq::empty())
    } else {
        let (name, value) = es.last();
        match uci_fields_spec(es.drop_last()) {
            None => None,
            Some(pre) => if is_metadata(name@) {
                if known_metadata(name@) { Some(pre) } else { None }
            } else if !identifier_ok(name@) {
                None
            } else {
                match uci_field_spec(name@, value) {
                    Some(f) => Some(pre.push(f)),
                    None => None,
                }
            },
        }
    }
}

/// One section of a `uci get` reply, with its `.index`.
pub open spec fn uci_section_spec(package: Seq<char>, id: Seq<char>, raw: JsonValue) -> Option<(u64, ConfigSectionView)> {
    match raw {
        JsonValue::Object(es) => {
            let kind = required_string_spec(lookup(es@, ".type"@));
            let name_ok = match lookup(es@, ".name"@) {
                None => true,
                Some(JsonValue::String(n)) => n@ == id,
                Some(_) => false,
            };
            if !identifier_ok(id) || kind is None || !identifier_ok(kind->0) || !name_ok {
                None
            } else {
                match (lookup(es@, ".index"@), uci_fields_spec(es@)) {
                    (Some(JsonValue::Number(Some(index))), Some(fields)) => Some((
                        index,
                        ConfigSectionView { package, section: id, kind: kind->0, fields },
                    )),
                    _ => None,
                }
            }
        },
        _ => None,
    }
}

pub open spec fn uci_sections_spec(package: Seq<char>, es: Seq<(String, JsonValue)>) -> Option<Seq<(u64, ConfigSectionView)>>
    decreases es.len(),
{
    if es.len() == 0 {
        Some(Seq::empty())
    } else {
        match (uci_sections_spec(package, es.drop_last()), uci_section_spec(package, es.last().0@, es.last().1)) {
            (Some(pre), Some(x)) => Some(pre.push(x)),
            _ => None,
        }
    }
}

pub open spec fn indices_unique(s: Seq<(u64, ConfigSectionView)>) -> bool {
    forall|i: int, j: int| 0 <= i < j < s.len() ==> (#[trigger] s[i]).0 != (#[trigger] s[j]).0
}

/// Inserts after every entry whose index is not larger.
pub open spec fn insert_by_index(s: Seq<(u64, ConfigSectionView)>, x: (u64, ConfigSectionView)) -> Seq<(u64, ConfigSectionView)>
    decreases s.len(),
{
    if s.len() == 0 {
        seq![x]
    } else if x.0 < s[0].0 {
        seq![x] + s
    } else {
        seq![s[0]] + insert_by_index(s.drop_first(), x)
    }
}

/// A stable sort by `.index`.
pub open spec fn sort_by_index(s: Seq<(u64, ConfigSectionView)>) -> Seq<(u64, ConfigSectionView)>
    decreases s.len(),
{
    if s.len() == 0 {
        Seq::empty()
    } else {
        insert_by_index(sort_by_index(s.drop_last()), s.last())
    }
}

/// The committed or staged sections of a `uci get` reply, ordered by
/// `.index`; sensitive options are redacted.
pub open spec fn uci_get_spec(package: Seq<char>, reply: JsonValue) -> Option<Seq<ConfigSectionView>> {
    if !package_ok(package) {
        None
    } else {
        match member(reply, "values"@) {
            Some(JsonValue::Object(es)) => match uci_sections_spec(package, es@) {
                Some(entries) => if indices_unique(entries) {
                    Some(sort_by_index(entries).map_values(|e: (u64, ConfigSectionView)| e.1))
                } else {
                    None
                },
                None => None,
            },
            _ => None,
        }
    }
}

proof fn lemma_insert_at(s: Seq<(u64, ConfigSectionView)>, x: (u64, ConfigSectionView), p: int)
    requires
        0 <= p <= s.len(),
        forall|k: int| 0 <= k < p ==> !(x.0 < (#[trigger] s[k]).0),
        p == s.len() || x.0 < s[p].0,
    ensures
        insert_by_index(s, x) == s.subrange(0, p) + seq![x] + s.subrange(p, s.len() as int),
    decreases p,
{
    if p == 0 {
        if s.len() == 0 {
            assert(seq![x] =~= s.subrange(0, 0) + seq![x] + s.subrange(0, 0));
        } else {
            assert(seq![x] + s =~= s.subrange(0, 0) + seq![x] + s.subrange(0, s.len() as int));
        }
    } else {
        let t = s.drop_first();
        assert forall|k: int| 0 <= k < p - 1 implies !(x.0 < (#[trigger] t[k]).0) by {
            assert(t[k] == s[k + 1]);
        }
        lemma_insert_at(t, x, p - 1);
        assert(!(x.0 < s[0].0));
        assert(seq![s[0]] + (t.subrange(0, p - 1) + seq![x] + t.subrange(p - 1, t.len() as int))
            =~= s.subrange(0, p) + seq![x] + s.subrange(p, s.len() as int));
    }
}

fn uci_fields(entries: &Vec<(String, JsonValue)>) -> (r: Result<Vec<ConfigField>, ObservationError>)
    ensures
        match r {
            Ok(v) => uci_fields_spec(entries@) == Some(view_fields(v@)),
            Err(e) => e is Malformed && uci_fields_spec(entries@) is None,
        },
{
    let mut fields: Vec<ConfigField> = Vec::new();
    let mut i: usize = 0;
    while i < entries.len()
        invariant
            i <= entries@.len(),
            uci_fields_spec(entries@.subrange(0, i as int)) == Some(view_fields(fields@)),
        decreases entries@.len() - i,
    {
        let ghost pre = entries@.subrange(0, i as int);
        let ghost next = entries@.subrange(0, i + 1);
        assert(next.drop_last() =~= pre);
        assert(next.last() == entries@[i as int]);
        let name = &entries[i].0;
        let value = &entries[i].1;
        let cs = chars_of(name.as_str());
        if cs.len() > 0 && cs[0] == '.' {
            if !(str_eq(name.as_str(), ".type") || str_eq(name.as_str(), ".name") || str_eq(name.as_str(), ".index")
                || str_eq(name.as_str(), ".anonymous")) {
                proof {
                    lemma_fields_prefix(entries@, i as int + 1);
                }
                return Err(malformed("unknown UCI metadata field"));
            }
        } else {
            match validate_identifier(name.as_str(), "UCI option") {
                Err(e) => {
                    proof {
                        lemma_fields_prefix(entries@, i as int + 1);
                    }
                    return Err(e);
                },
                Ok(()) => {},
            }
            match parse_uci_field(name, value) {
                Ok(f) => {
                    fields.push(f);
                    assert(view_fields(fields@) =~= view_fields(fields@.drop_last()).push(fields@.last()@));
                },
                Err(e) => {
                    proof {
                        lemma_fields_prefix(entries@, i as int + 1);
                    }
                    return Err(e);
                },
            }
        }
        i = i + 1;
    }
    assert(entries@.subrange(0, entries@.len() as int) =~= entries@);
    Ok(fields)
}

proof fn lemma_fields_prefix(es: Seq<(String, JsonValue)>, n: int)
    requires
        0 <= n <= es.len(),
        uci_fields_spec(es.subrange(0, n)) is None,
    ensures
        uci_fields_spec(es) is None,
    decreases es.len() - n,
{
    if n < es.len() {
        assert(es.subrange(0, n + 1).drop_last() =~= es.subrange(0, n));
        lemma_fields_prefix(es, n + 1);
    } else {
        assert(es.subrange(0, n) =~= es);
    }
}

proof fn lemma_sections_prefix(package: Seq<char>, es: Seq<(String, JsonValue)>, n: int)
    requires
        0 <= n <= es.len(),
        uci_sections_spec(package, es.subrange(0, n)) is None,
    ensures
        uci_sections_spec(package, es) is None,
    decreases es.len() - n,
{
    if n < es.len() {
        assert(es.subrange(0, n + 1).drop_last() =~= es.subrange(0, n));
        lemma_sections_prefix(package, es, n + 1);
    } else {
        assert(es.subrange(0, n) =~= es);
    }
}

fn uci_section(package: &str, id: &String, raw: &JsonValue) -> (r: Result<(u64, ConfigSection), ObservationError>)
    ensures
        match r {
            Ok(x) => uci_section_spec(package@, id@, *raw) == Some((x.0, x.1@)),
            Err(e) => e is Malformed && uci_section_spec(package@, id@, *raw) is None,
        },
{
    match validate_identifier(id.as_str(), "UCI section ID") {
        Err(e) => {
            return Err(e);
        },
        Ok(()) => {},
    }
    let es = match raw {
        JsonValue::Object(es) => es,
        _ => {
            return Err(malformed("section is not an object"));
        },
    };
    let kind = match required_string(lookup_exec(es, ".type"), ".type") {
        Ok(k) => k,
        Err(e) => {
            return Err(e);
        },
    };
    match validate_identifier(kind.as_str(), "UCI section type") {
        Err(e) => {
            return Err(e);
        },
        Ok(()) => {},
    }
    let name_ok = match lookup_exec(es, ".name") {
        None => true,
        Some(JsonValue::String(n)) => *n == *id,
        Some(_) => false,
    };
    if !name_ok {
        return Err(malformed("section has mismatched .name"));
    }
    let index = match lookup_exec(es, ".index") {
        Some(JsonValue::Number(Some(n))) => *n,
        _ => {
            return Err(malformed("section lacks integer .index"));
        },
    };
    let fields = match uci_fields(es) {
        Ok(f) => f,
        Err(e) => {
            return Err(e);
        },
    };
    Ok((index, ConfigSection { package: package.to_string(), section: id.clone(), kind: kind.clone(), fields }))
}

proof fn lemma_unique_prefix(package: Seq<char>, es: Seq<(String, JsonValue)>, n: int)
    requires
        0 <= n <= es.len(),
        uci_sections_spec(package, es.subrange(0, n)) matches Some(pre) && !indices_unique(pre),
    ensures
        match uci_sections_spec(package, es) {
            Some(all) => !indices_unique(all),
            None => true,
        },
    decreases es.len() - n,
{
    if n < es.len() {
        let pre = uci_sections_spec(package, es.subrange(0, n))->0;
        assert(es.subrange(0, n + 1).drop_last() =~= es.subrange(0, n));
        if let Some(next) = uci_sections_spec(package, es.subrange(0, n + 1)) {
            assert(next == pre.push(next.last()));
            let (a, b) = choose|a: int, b: int| 0 <= a < b < pre.len() && (#[trigger] pre[a]).0 == (#[trigger] pre[b]).0;
            assert(next[a] == pre[a] && next[b] == pre[b]);
            lemma_unique_prefix(package, es, n + 1);
        } else {
            lemma_sections_prefix(package, es, n + 1);
        }
    } else {
        assert(es.subrange(0, n) =~= es);
    }
}

/// Parses a `uci get` reply for one package into its sections in `.index`
/// order, redacting sensitive options.
pub fn parse_uci_get(package: &str, reply: &JsonValue) -> (r: Result<Vec<ConfigSection>, ObservationError>)
    ensures
        match r {
            Ok(v) => uci_get_spec(package@, *reply) == Some(view_sections(v@)),
            Err(e) => e is Malformed && uci_get_spec(package@, *reply) is None,
        },
{
    match validate_package(package) {
        Err(e) => {
            return Err(e);
        },
        Ok(()) => {},
    }
    let values = match reply.get("values") {
        Some(JsonValue::Object(es)) => es,
        _ => {
            return Err(malformed("uci get reply lacks object values"));
        },
    };
    let mut sorted: Vec<(u64, ConfigSection)> = Vec::new();
    let mut seen: Vec<u64> = Vec::new();
    let ghost mut entries: Seq<(u64, ConfigSectionView)> = Seq::empty();
    assert(sorted@.map_values(|e: (u64, ConfigSection)| (e.0, e.1@)) =~= sort_by_index(entries));
    let mut i: usize = 0;
    while i < values.len()
        invariant
            package_ok(package@),
            member(*reply, "values"@) == Some(JsonValue::Object(*values)),
            i <= values@.len(),
            uci_sections_spec(package@, values@.subrange(0, i as int)) == Some(entries),
            indices_unique(entries),
            seen@ == entries.map_values(|e: (u64, ConfigSectionView)| e.0),
            sorted@.map_values(|e: (u64, ConfigSection)| (e.0, e.1@)) == sort_by_index(entries),
        decreases values@.len() - i,
    {
        let ghost pre = values@.subrange(0, i as int);
        let ghost next = values@.subrange(0, i + 1);
        assert(next.drop_last() =~= pre);
        assert(next.last() == values@[i as int]);
        let (index, section) = match uci_section(package, &values[i].0, &values[i].1) {
            Ok(x) => x,
            Err(e) => {
                proof {
                    lemma_sections_prefix(package@, values@, i as int + 1);
                }
                return Err(e);
            },
        };
        let ghost x = (index, section@);
        assert(uci_sections_spec(package@, next) == Some(entries.push(x)));
        let mut q: usize = 0;
        while q < seen.len()
            invariant
                package_ok(package@),
                member(*reply, "values"@) == Some(JsonValue::Object(*values)),
                uci_sections_spec(package@, values@.subrange(0, i + 1)) == Some(entries.push(x)),
                x.0 == index,
                i < values@.len(),
                seen@ == entries.map_values(|e: (u64, ConfigSectionView)| e.0),
                q <= seen@.len(),
                forall|k: int| 0 <= k < q ==> (#[trigger] entries[k]).0 != index,
            decreases seen@.len() - q,
        {
            assert(seen@[q as int] == entries[q as int].0);
            if seen[q] == index {
                proof {
                    assert(!indices_unique(entries.push(x))) by {
                        assert(entries.push(x)[q as int] == entries[q as int]);
                        assert(entries.push(x)[entries.len() as int] == x);
                        assert(entries.push(x)[q as int].0 == entries.push(x)[entries.len() as int].0);
                    }
                    lemma_unique_prefix(package@, values@, i as int + 1);
                }
                return Err(malformed("duplicate UCI section .index"));
            }
            q = q + 1;
        }
        let ghost sv = sorted@.map_values(|e: (u64, ConfigSection)| (e.0, e.1@));
        let mut p: usize = 0;
        while p < sorted.len() && !(index < sorted[p].0)
            invariant
                sv == sorted@.map_values(|e: (u64, ConfigSection)| (e.0, e.1@)),
                p <= sorted@.len(),
                forall|k: int| 0 <= k < p ==> !(index < (#[trigger] sv[k]).0),
            decreases sorted@.len() - p,
        {
            assert(sv[p as int] == (sorted@[p as int].0, sorted@[p as int].1@));
            p = p + 1;
        }
        proof {
            if p < sorted@.len() {
                assert(sv[p as int] == (sorted@[p as int].0, sorted@[p as int].1@));
            }
            lemma_insert_at(sv, x, p as int);
            assert(entries.push(x).drop_last() =~= entries);
        }
        sorted.insert(p, (index, section));
        seen.push(index);
        proof {
            let nv = sorted@.map_values(|e: (u64, ConfigSection)| (e.0, e.1@));
            assert(nv =~= sv.subrange(0, p as int) + seq![x] + sv.subrange(p as int, sv.len() as int));
            assert(seen@ =~= entries.push(x).map_values(|e: (u64, ConfigSectionView)| e.0));
            assert(indices_unique(entries.push(x))) by {
                assert forall|a: int, b2: int| 0 <= a < b2 < entries.len() + 1 implies (#[trigger] entries.push(x)[a]).0 != (#[trigger] entries.push(x)[b2]).0 by {
                    if b2 < entries.len() {
                        assert(entries.push(x)[a] == entries[a] && entries.push(x)[b2] == entries[b2]);
                    } else {
                        assert(entries.push(x)[a] == entries[a]);
                    }
                }
            }
        }
        proof {
            entries = entries.push(x);
        }
        i = i + 1;
    }
    assert(values@.subrange(0, values@.len() as int) =~= values@);
    let mut out: Vec<ConfigSection> = Vec::new();
    let mut k: usize = 0;
    let ghost sv = sorted@.map_values(|e: (u64, ConfigSection)| (e.0, e.1@));
    while k < sorted.len()
        invariant
            sv == sorted@.map_values(|e: (u64, ConfigSection)| (e.0, e.1@)),
            k <= sorted@.len(),
            out@.len() == k,
            forall|j: int| 0 <= j < k ==> (#[trigger] out@[j])@ == sv[j].1,
        decreases sorted@.len() - k,
    {
        assert(sv[k as int] == (sorted@[k as int].0, sorted@[k as int].1@));
        out.push(sorted[k].1.duplicate());
        k = k + 1;
    }
    assert(view_sections(out@) =~= sv.map_values(|e: (u64, ConfigSectionView)| e.1));
    Ok(out)
}

proof fn lemma_decimal_digits(n: nat)
    ensures
        all_ascii(decimal(n)),
        decimal(n).len() > 0,
    decreases n,
{
    if n >= 10 {
        lemma_decimal_digits(n / 10);
    }
}

pub open spec fn decimal_text(n: u64) -> Seq<char> {
    ascii_chars(decimal(n as nat))
}

pub(crate) fn decimal_digits(n: u64) -> (r: Vec<u8>)
    ensures
        r@ == decimal(n as nat),
    decreases n,
{
    if n < 10 {
        let mut v: Vec<u8> = Vec::new();
        v.push((48 + n) as u8);
        assert(v@ =~= decimal(n as nat));
        v
    } else {
        let mut v = decimal_digits(n / 10);
        v.push((48 + n % 10) as u8);
        assert(v@ =~= decimal(n as nat));
        v
    }
}

pub(crate) fn decimal_string(n: u64) -> (r: String)
    ensures
        r@ == decimal_text(n),
{
    proof {
        lemma_decimal_digits(n as nat);
    }
    ascii_string(decimal_digits(n))
}

/// `address/mask` for one netifd address entry of the given family.
pub open spec fn address_entry_spec(entry: JsonValue, v4: bool) -> Option<Seq<char>> {
    match entry {
        JsonValue::Object(es) => match (required_string_spec(lookup(es@, "address"@)), lookup(es@, "mask"@)) {
            (Some(addr), Some(JsonValue::Number(Some(mask)))) => match parse_ip_spec(addr) {
                Some(ip) => if ip.is_ipv4_spec() == v4 && mask <= (if v4 { 32u64 } else { 128u64 }) {
                    Some(addr + "/"@ + decimal_text(mask))
                } else {
                    None
                },
                None => None,
            },
            _ => None,
        },
        _ => None,
    }
}

pub open spec fn address_list_spec(items: Seq<JsonValue>, v4: bool) -> Option<Seq<Seq<char>>>
    decreases items.len(),
{
    if items.len() == 0 {
        Some(Seq::empty())
    } else {
        match (address_list_spec(items.drop_last(), v4), address_entry_spec(items.last(), v4)) {
            (Some(pre), Some(a)) => Some(pre.push(a)),
            _ => None,
        }
    }
}

pub open spec fn family_spec(v: Option<JsonValue>, v4: bool) -> Option<Seq<Seq<char>>> {
    match v {
        None => Some(Seq::empty()),
        Some(JsonValue::Array(items)) => address_list_spec(items@, v4),
        Some(_) => None,
    }
}

/// IPv4 then IPv6 addresses with their prefix lengths.
pub open spec fn addresses_spec(v4: Option<JsonValue>, v6: Option<JsonValue>) -> Option<Seq<Seq<char>>> {
    match (family_spec(v4, true), family_spec(v6, false)) {
        (Some(a), Some(b)) => Some(a + b),
        _ => None,
    }
}

fn address_entry(entry: &JsonValue, v4: bool) -> (r: Result<String, ObservationError>)
    ensures
        match r {
            Ok(s) => address_entry_spec(*entry, v4) == Some(s@),
            Err(e) => e is Malformed && address_entry_spec(*entry, v4) is None,
        },
{
    let es = match entry {
        JsonValue::Object(es) => es,
        _ => {
            return Err(malformed("address entry is not an object"));
        },
    };
    let address = match required_string(lookup_exec(es, "address"), "address") {
        Ok(a) => a,
        Err(e) => {
            return Err(e);
        },
    };
    let mask = match lookup_exec(es, "mask") {
        Some(JsonValue::Number(Some(m))) => *m,
        _ => {
            return Err(malformed("address mask missing"));
        },
    };
    let ok = match parse_ip(address.as_str()) {
        Some(ip) => ip.is_ipv4() == v4 && mask <= (if v4 { 32u64 } else { 128u64 }),
        None => false,
    };
    if !ok {
        return Err(malformed("invalid netifd address"));
    }
    let with_slash = concat_str(address.as_str(), "/");
    let digits = decimal_string(mask);
    Ok(concat_str(with_slash.as_str(), digits.as_str()))
}

fn address_family(value: Option<&JsonValue>, v4: bool, out: &mut Vec<String>) -> (r: Result<(), ObservationError>)
    ensures
        match r {
            Ok(()) => family_spec(match value { Some(x) => Some(*x), None => None }, v4) matches Some(a)
                && view_strings(final(out)@) == view_strings(old(out)@) + a,
            Err(e) => e is Malformed && family_spec(match value { Some(x) => Some(*x), None => None }, v4) is None,
        },
{
    let items = match value {
        None => {
            assert(view_strings(out@) =~= view_strings(out@) + Seq::<Seq<char>>::empty());
            return Ok(());
        },
        Some(JsonValue::Array(items)) => items,
        Some(_) => {
            return Err(malformed("address field is not an array"));
        },
    };
    let ghost start = view_strings(out@);
    let mut i: usize = 0;
    while i < items.len()
        invariant
            i <= items@.len(),
            match value {
                Some(x) => *x == JsonValue::Array(*items),
                None => false,
            },
            address_list_spec(items@.subrange(0, i as int), v4) matches Some(pre) && view_strings(out@) == start + pre,
        decreases items@.len() - i,
    {
        let ghost pre = address_list_spec(items@.subrange(0, i as int), v4)->0;
        let ghost next = items@.subrange(0, i + 1);
        assert(next.drop_last() =~= items@.subrange(0, i as int));
        assert(next.last() == items@[i as int]);
        match address_entry(&items[i], v4) {
            Ok(a) => {
                let ghost before = out@;
                let ghost av = a@;
                out.push(a);
                assert(view_strings(out@) =~= view_strings(before).push(av));
                assert(view_strings(out@) =~= start + pre.push(av));
            },
            Err(e) => {
                proof {
                    lemma_addresses_prefix(items@, v4, i as int + 1);
                }
                return Err(e);
            },
        }
        i = i + 1;
    }
    assert(items@.subrange(0, items@.len() as int) =~= items@);
    Ok(())
}

proof fn lemma_addresses_prefix(items: Seq<JsonValue>, v4: bool, n: int)
    requires
        0 <= n <= items.len(),
        address_list_spec(items.subrange(0, n), v4) is None,
    ensures
        address_list_spec(items, v4) is None,
    decreases items.len() - n,
{
    if n < items.len() {
        assert(items.subrange(0, n + 1).drop_last() =~= items.subrange(0, n));
        lemma_addresses_prefix(items, v4, n + 1);
    } else {
        assert(items.subrange(0, n) =~= items);
    }
}

fn parse_addresses(v4: Option<&JsonValue>, v6: Option<&JsonValue>) -> (r: Result<Vec<String>, ObservationError>)
    ensures
        match r {
            Ok(v) => addresses_spec(match v4 { Some(x) => Some(*x), None => None }, match v6 { Some(x) => Some(*x), None => None })
                == Some(view_strings(v@)),
            Err(e) => e is Malformed && addresses_spec(match v4 { Some(x) => Some(*x), None => None }, match v6 { Some(x) => Some(*x), None => None }) is None,
        },
{
    let mut out: Vec<String> = Vec::new();
    assert(view_strings(out@) =~= Seq::<Seq<char>>::empty());
    match address_family(v4, true, &mut out) {
        Err(e) => {
            return Err(e);
        },
        Ok(()) => {},
    }
    match address_family(v6, false, &mut out) {
        Err(e) => {
            return Err(e);
        },
        Ok(()) => {},
    }
    Ok(out)
}

#[derive(Debug, Clone, PartialEq, Eq)]
pub struct OperationalCollection {
    pub facts: Vec<OperationalFact>,
    pub completeness: Completeness,
}

pub struct OperationalCollectionView {
    pub facts: Seq<OperationalFactView>,
    pub completeness: CompletenessView,
}

impl View for OperationalCollection {
    type V = OperationalCollectionView;
    open spec fn view(&self) -> OperationalCollectionView {
        OperationalCollectionView { facts: view_facts(self.facts@), completeness: self.completeness@ }
    }
}

/// One `network.interface dump` entry, and whether an address family is absent.
pub open spec fn interface_spec(entry: JsonValue) -> Option<(OperationalFactView, bool)> {
    match entry {
        JsonValue::Object(o) => {
            let v4 = lookup(o@, "ipv4-address"@);
            let v6 = lookup(o@, "ipv6-address"@);
            match (required_string_spec(lookup(o@, "interface"@)), required_bool_spec(lookup(o@, "up"@)),
                optional_string_spec(lookup(o@, "device"@)), addresses_spec(v4, v6)) {
                (Some(name), Some(up), Some(device), Some(addresses)) => Some((
                    OperationalFactView::Interface { name, up, device, addresses },
                    v4 is None || v6 is None,
                )),
                _ => None,
            }
        },
        _ => None,
    }
}

pub open spec fn missing_family(f: OperationalFactView) -> Seq<char> {
    match f {
        OperationalFactView::Interface { name, .. } => "interface:"@ + name + ":address-family"@,
        _ => Seq::empty(),
    }
}

pub open spec fn interfaces_spec(items: Seq<JsonValue>) -> Option<(Seq<OperationalFactView>, Seq<Seq<char>>)>
    decreases items.len(),
{
    if items.len() == 0 {
        Some((Seq::empty(), Seq::empty()))
    } else {
        match (interfaces_spec(items.drop_last()), interface_spec(items.last())) {
            (Some((facts, missing)), Some((f, absent))) => Some((
                facts.push(f),
                if absent { missing.push(missing_family(f)) } else { missing },
            )),
            _ => None,
        }
    }
}

/// Interfaces with their addresses. A missing address family is unknown
/// addressing, recorded as partial completeness, never an empty address set.
pub open spec fn netifd_interfaces_spec(reply: JsonValue) -> Option<OperationalCollectionView> {
    match member(reply, "interface"@) {
        Some(JsonValue::Array(items)) => match interfaces_spec(items@) {
            Some((facts, missing)) => Some(OperationalCollectionView {
                facts,
                completeness: if missing.len() == 0 { CompletenessView::Complete } else { CompletenessView::Partial { missing } },
            }),
            None => None,
        },
        _ => None,
    }
}

proof fn lemma_interfaces_prefix(items: Seq<JsonValue>, n: int)
    requires
        0 <= n <= items.len(),
        interfaces_spec(items.subrange(0, n)) is None,
    ensures
        interfaces_spec(items) is None,
    decreases items.len() - n,
{
    if n < items.len() {
        assert(items.subrange(0, n + 1).drop_last() =~= items.subrange(0, n));
        lemma_interfaces_prefix(items, n + 1);
    } else {
        assert(items.subrange(0, n) =~= items);
    }
}

pub fn parse_netifd_interfaces(reply: &JsonValue) -> (r: Result<OperationalCollection, ObservationError>)
    ensures
        match r {
            Ok(c) => netifd_interfaces_spec(*reply) == Some(c@),
            Err(e) => e is Malformed && netifd_interfaces_spec(*reply) is None,
        },
{
    let entries = match reply.get("interface") {
        Some(JsonValue::Array(items)) => items,
        _ => {
            return Err(malformed("network.interface dump lacks interface array"));
        },
    };
    let mut facts: Vec<OperationalFact> = Vec::new();
    let mut missing: Vec<String> = Vec::new();
    let mut i: usize = 0;
    while i < entries.len()
        invariant
            member(*reply, "interface"@) == Some(JsonValue::Array(*entries)),
            i <= entries@.len(),
            interfaces_spec(entries@.subrange(0, i as int)) == Some((view_facts(facts@), view_strings(missing@))),
        decreases entries@.len() - i,
    {
        let ghost next = entries@.subrange(0, i + 1);
        assert(next.drop_last() =~= entries@.subrange(0, i as int));
        assert(next.last() == entries@[i as int]);
        let o = match &entries[i] {
            JsonValue::Object(o) => o,
            _ => {
                proof {
                    lemma_interfaces_prefix(entries@, i as int + 1);
                }
                return Err(malformed("interface entry is not an object"));
            },
        };
        let name = match required_string(lookup_exec(o, "interface"), "interface") {
            Ok(n) => n,
            Err(e) => {
                proof {
                    lemma_interfaces_prefix(entries@, i as int + 1);
                }
                return Err(e);
            },
        };
        let up = match required_bool(lookup_exec(o, "up"), "interface up") {
            Ok(b) => b,
            Err(e) => {
                proof {
                    lemma_interfaces_prefix(entries@, i as int + 1);
                }
                return Err(e);
            },
        };
        let device = match optional_string(lookup_exec(o, "device"), "interface device") {
            Ok(d) => d,
            Err(e) => {
                proof {
                    lemma_interfaces_prefix(entries@, i as int + 1);
                }
                return Err(e);
            },
        };
        let v4 = lookup_exec(o, "ipv4-address");
        let v6 = lookup_exec(o, "ipv6-address");
        let addresses = match parse_addresses(v4, v6) {
            Ok(a) => a,
            Err(e) => {
                proof {
                    lemma_interfaces_prefix(entries@, i as int + 1);
                }
                return Err(e);
            },
        };
        // netifd does not promise address arrays for every interface state.
        if v4.is_none() || v6.is_none() {
            let head = concat_str("interface:", name.as_str());
            let text = concat_str(head.as_str(), ":address-family");
            let ghost before = missing@;
            missing.push(text);
            assert(view_strings(missing@) =~= view_strings(before).push(text@));
        }
        let fact = OperationalFact::Interface { name: name.clone(), up, device, addresses };
        let ghost before_f = facts@;
        let ghost fv = fact@;
        facts.push(fact);
        assert(view_facts(facts@) =~= view_facts(before_f).push(fv));
        i = i + 1;
    }
    assert(entries@.subrange(0, entries@.len() as int) =~= entries@);
    let completeness = if missing.len() == 0 {
        Completeness::Complete
    } else {
        Completeness::Partial { missing }
    };
    Ok(OperationalCollection { facts, completeness })
}

pub open spec fn device_spec(name: Seq<char>, raw: JsonValue) -> Option<OperationalFactView> {
    match raw {
        JsonValue::Object(o) => {
            let carrier = match lookup(o@, "carrier"@) {
                None => Some(None),
                Some(v) => match required_bool_spec(Some(v)) {
                    Some(b) => Some(Some(b)),
                    None => None,
                },
            };
            if !identifier_ok(name) {
                None
            } else {
                match (carrier, required_bool_spec(lookup(o@, "present"@)), string_array_spec(lookup(o@, "bridge-members"@))) {
                    (Some(carrier), Some(present), Some(members)) => Some(OperationalFactView::Device { name, present, carrier, members }),
                    _ => None,
                }
            }
        },
        _ => None,
    }
}

pub open spec fn devices_spec(es: Seq<(String, JsonValue)>) -> Option<Seq<OperationalFactView>>
    decreases es.len(),
{
    if es.len() == 0 {
        Some(Seq::empty())
    } else {
        match (devices_spec(es.drop_last()), device_spec(es.last().0@, es.last().1)) {
            (Some(pre), Some(f)) => Some(pre.push(f)),
            _ => None,
        }
    }
}

/// `network.device status` is one named table per present device.
pub open spec fn netifd_devices_spec(reply: JsonValue) -> Option<OperationalCollectionView> {
    match reply {
        JsonValue::Object(es) => match devices_spec(es@) {
            Some(facts) => Some(OperationalCollectionView { facts, completeness: CompletenessView::Complete }),
            None => None,
        },
        _ => None,
    }
}

proof fn lemma_devices_prefix(es: Seq<(String, JsonValue)>, n: int)
    requires
        0 <= n <= es.len(),
        devices_spec(es.subrange(0, n)) is None,
    ensures
        devices_spec(es) is None,
    decreases es.len() - n,
{
    if n < es.len() {
        assert(es.subrange(0, n + 1).drop_last() =~= es.subrange(0, n));
        lemma_devices_prefix(es, n + 1);
    } else {
        assert(es.subrange(0, n) =~= es);
    }
}

pub fn parse_netifd_devices(reply: &JsonValue) -> (r: Result<OperationalCollection, ObservationError>)
    ensures
        match r {
            Ok(c) => netifd_devices_spec(*reply) == Some(c@),
            Err(e) => e is Malformed && netifd_devices_spec(*reply) is None,
        },
{
    let entries = match reply {
        JsonValue::Object(es) => es,
        _ => {
            return Err(malformed("network.device status is not an object"));
        },
    };
    let mut facts: Vec<OperationalFact> = Vec::new();
    let mut i: usize = 0;
    while i < entries.len()
        invariant
            *reply == JsonValue::Object(*entries),
            i <= entries@.len(),
            devices_spec(entries@.subrange(0, i as int)) == Some(view_facts(facts@)),
        decreases entries@.len() - i,
    {
        let ghost next = entries@.subrange(0, i + 1);
        assert(next.drop_last() =~= entries@.subrange(0, i as int));
        assert(next.last() == entries@[i as int]);
        let name = &entries[i].0;
        let fact = match device_fact(name, &entries[i].1) {
            Ok(f) => f,
            Err(e) => {
                proof {
                    lemma_devices_prefix(entries@, i as int + 1);
                }
                return Err(e);
            },
        };
        let ghost before = facts@;
        let ghost fv = fact@;
        facts.push(fact);
        assert(view_facts(facts@) =~= view_facts(before).push(fv));
        i = i + 1;
    }
    assert(entries@.subrange(0, entries@.len() as int) =~= entries@);
    Ok(OperationalCollection { facts, completeness: Completeness::Complete })
}

fn device_fact(name: &String, raw: &JsonValue) -> (r: Result<OperationalFact, ObservationError>)
    ensures
        match r {
            Ok(f) => device_spec(name@, *raw) == Some(f@),
            Err(e) => e is Malformed && device_spec(name@, *raw) is None,
        },
{
    match validate_identifier(name.as_str(), "device name") {
        Err(e) => {
            return Err(e);
        },
        Ok(()) => {},
    }
    let o = match raw {
        JsonValue::Object(o) => o,
        _ => {
            return Err(malformed("device entry is not an object"));
        },
    };
    let carrier = match lookup_exec(o, "carrier") {
        Some(v) => match required_bool(Some(v), "device carrier") {
            Ok(b) => Some(b),
            Err(e) => {
                return Err(e);
            },
        },
        None => None,
    };
    let present = match required_bool(lookup_exec(o, "present"), "device present") {
        Ok(b) => b,
        Err(e) => {
            return Err(e);
        },
    };
    let members = match string_array(lookup_exec(o, "bridge-members"), "bridge-members") {
        Ok(m) => m,
        Err(e) => {
            return Err(e);
        },
    };
    Ok(OperationalFact::Device { name: name.clone(), present, carrier, members })
}

pub open spec fn radio_spec(name: Seq<char>, raw: JsonValue) -> Option<OperationalFactView> {
    match raw {
        JsonValue::Object(o) => match (required_bool_spec(lookup(o@, "up"@)), required_bool_spec(lookup(o@, "pending"@))) {
            (Some(up), Some(pending)) => Some(OperationalFactView::Wireless { name, up, pending }),
            _ => None,
        },
        _ => None,
    }
}

pub open spec fn radios_spec(es: Seq<(String, JsonValue)>) -> Option<Seq<OperationalFactView>>
    decreases es.len(),
{
    if es.len() == 0 {
        Some(Seq::empty())
    } else {
        match (radios_spec(es.drop_last()), radio_spec(es.last().0@, es.last().1)) {
            (Some(pre), Some(f)) => Some(pre.push(f)),
            _ => None,
        }
    }
}

pub open spec fn netifd_wireless_spec(reply: JsonValue) -> Option<OperationalCollectionView> {
    match reply {
        JsonValue::Object(es) => match radios_spec(es@) {
            Some(facts) => Some(OperationalCollectionView { facts, completeness: CompletenessView::Complete }),
            None => None,
        },
        _ => None,
    }
}

proof fn lemma_radios_prefix(es: Seq<(String, JsonValue)>, n: int)
    requires
        0 <= n <= es.len(),
        radios_spec(es.subrange(0, n)) is None,
    ensures
        radios_spec(es) is None,
    decreases es.len() - n,
{
    if n < es.len() {
        assert(es.subrange(0, n + 1).drop_last() =~= es.subrange(0, n));
        lemma_radios_prefix(es, n + 1);
    } else {
        assert(es.subrange(0, n) =~= es);
    }
}

pub fn parse_netifd_wireless(reply: &JsonValue) -> (r: Result<OperationalCollection, ObservationError>)
    ensures
        match r {
            Ok(c) => netifd_wireless_spec(*reply) == Some(c@),
            Err(e) => e is Malformed && netifd_wireless_spec(*reply) is None,
        },
{
    let radios = match reply {
        JsonValue::Object(es) => es,
        _ => {
            return Err(malformed("network.wireless status is not an object"));
        },
    };
    let mut facts: Vec<OperationalFact> = Vec::new();
    let mut i: usize = 0;
    while i < radios.len()
        invariant
            *reply == JsonValue::Object(*radios),
            i <= radios@.len(),
            radios_spec(radios@.subrange(0, i as int)) == Some(view_facts(facts@)),
        decreases radios@.len() - i,
    {
        let ghost next = radios@.subrange(0, i + 1);
        assert(next.drop_last() =~= radios@.subrange(0, i as int));
        assert(next.last() == radios@[i as int]);
        let o = match &radios[i].1 {
            JsonValue::Object(o) => o,
            _ => {
                proof {
                    lemma_radios_prefix(radios@, i as int + 1);
                }
                return Err(malformed("wireless radio is not an object"));
            },
        };
        let up = match required_bool(lookup_exec(o, "up"), "wireless up") {
            Ok(b) => b,
            Err(e) => {
                proof {
                    lemma_radios_prefix(radios@, i as int + 1);
                }
                return Err(e);
            },
        };
        let pending = match required_bool(lookup_exec(o, "pending"), "wireless pending") {
            Ok(b) => b,
            Err(e) => {
                proof {
                    lemma_radios_prefix(radios@, i as int + 1);
                }
                return Err(e);
            },
        };
        let fact = OperationalFact::Wireless { name: radios[i].0.clone(), up, pending };
        let ghost before = facts@;
        let ghost fv = fact@;
        facts.push(fact);
        assert(view_facts(facts@) =~= view_facts(before).push(fv));
        i = i + 1;
    }
    assert(radios@.subrange(0, radios@.len() as int) =~= radios@);
    Ok(OperationalCollection { facts, completeness: Completeness::Complete })
}

/// This boundary has no generic RPC method: every invocation is checked
/// against the fixed read-only set before it reaches the transport.
/// Implementations supply the rpcd transport and a monotonic clock.
pub trait UbusTransport {
    /// The transport gave `reply` to this request of this object's method,
    /// made with this time budget and response limit. A transport that
    /// records nothing of its calls leaves this open.
    closed spec fn answered(
        &self,
        object: Seq<char>,
        method: Seq<char>,
        request: JsonValue,
        timeout_ms: u64,
        max_response_bytes: usize,
        reply: Result<JsonValue, ObservationError>,
    ) -> bool {
        true
    }

    /// The clock read `t`. A transport that records nothing of its clock
    /// leaves this open.
    closed spec fn clock_read(&self, t: u64) -> bool {
        true
    }

    fn invoke(&self, object: &str, method: &str, request: &JsonValue, timeout_ms: u64, max_response_bytes: usize)
        -> (r: Result<JsonValue, ObservationError>)
        ensures
            self.answered(object@, method@, *request, timeout_ms, max_response_bytes, r);

    /// Monotonic time in milliseconds.
    fn now_ms(&self) -> (r: u64)
        ensures
            self.clock_read(r);
}

pub open spec fn session_id_ok(s: Seq<char>) -> bool {
    s.len() > 0 && byte_len(s) <= 128 && !has_control_spec(s)
}

/// `v` is a JSON object of exactly these string fields, in this order.
pub open spec fn text_fields(v: JsonValue, fields: Seq<(Seq<char>, Seq<char>)>) -> bool {
    match v {
        JsonValue::Object(es) => es@.len() == fields.len() && forall|i: int| 0 <= i < fields.len()
            ==> ((#[trigger] es@[i]).0@ == fields[i].0 && (es@[i].1 matches JsonValue::String(t) && t@ == fields[i].1)),
        _ => false,
    }
}

/// The request asking rpcd whether the session may call a method.
pub open spec fn access_fields(session: Seq<char>, object: Seq<char>, method: Seq<char>) -> Seq<(Seq<char>, Seq<char>)> {
    seq![("ubus_rpc_session"@, session), ("scope"@, "ubus"@), ("object"@, object), ("function"@, method)]
}

/// The request naming a UCI package in the session.
pub open spec fn package_fields(package: Seq<char>, session: Seq<char>) -> Seq<(Seq<char>, Seq<char>)> {
    seq![("config"@, package), ("ubus_rpc_session"@, session)]
}

/// The request naming only the session.
pub open spec fn session_fields(session: Seq<char>) -> Seq<(Seq<char>, Seq<char>)> {
    seq![("ubus_rpc_session"@, session)]
}

/// What an access reply means when `expected` is the access required: the
/// transport's error, success when the boolean `access` is as required, a
/// denial when it is not, and a malformed reply otherwise.
pub open spec fn access_outcome(reply: Result<JsonValue, ObservationError>, expected: bool, r: Result<(), ObservationError>) -> bool {
    match reply {
        Err(e) => r == Err::<(), ObservationError>(e),
        Ok(v) => match member(v, "access"@) {
            Some(JsonValue::Bool(g)) => if g == expected {
                r is Ok
            } else {
                r matches Err(ObservationError::Denied(m)) && m@ == (if expected {
                    "rpcd session lacks required read access"@
                } else {
                    "rpcd session grants forbidden UCI write access"@
                })
            },
            _ => r matches Err(ObservationError::Malformed(m)) && m@ == "session access reply lacks boolean access"@,
        },
    }
}

/// The staging refusal.
pub open spec fn staging_refused(r: Result<(), ObservationError>) -> bool {
    r matches Err(ObservationError::Unavailable(m)) && m@ == "rpcd session contains staging changes; refusing committed label"@
}

/// What a `changes` reply means: the transport's error, success when the
/// reported changes are an empty array or object, a refusal when any are
/// staged, and a malformed reply when it reports none.
pub open spec fn staging_outcome(reply: Result<JsonValue, ObservationError>, r: Result<(), ObservationError>) -> bool {
    match reply {
        Err(e) => r == Err::<(), ObservationError>(e),
        Ok(v) => match member(v, "changes"@) {
            None => r matches Err(ObservationError::Malformed(m)) && m@ == "uci changes reply lacks changes"@,
            Some(JsonValue::Array(items)) => if items@.len() == 0 { r is Ok } else { staging_refused(r) },
            Some(JsonValue::Object(es)) => if es@.len() == 0 { r is Ok } else { staging_refused(r) },
            Some(_) => staging_refused(r),
        },
    }
}

/// The access checks, in order: each read permission must be granted,
/// then each UCI write refused.
pub open spec fn access_checks() -> Seq<(Seq<char>, Seq<char>, bool)> {
    seq![
        ("uci"@, "get"@, true),
        ("uci"@, "changes"@, true),
        ("network.interface"@, "dump"@, true),
        ("network.device"@, "status"@, true),
        ("network.wireless"@, "status"@, true),
        ("uci"@, "set"@, false),
        ("uci"@, "add"@, false),
        ("uci"@, "delete"@, false),
        ("uci"@, "commit"@, false),
        ("uci"@, "apply"@, false),
        ("uci"@, "confirm"@, false),
        ("uci"@, "rollback"@, false),
    ]
}

pub struct ReadOnlyUbus<T> {
    transport: T,
    session_id: String,
    invocation_timeout_ms: u64,
    max_response_bytes: usize,
}

fn text_value(s: &str) -> (r: JsonValue)
    ensures
        r matches JsonValue::String(t) && t@ == s@,
{
    JsonValue::String(s.to_string())
}

fn entry(key: &str, value: JsonValue) -> (r: (String, JsonValue))
    ensures
        r.0@ == key@,
        r.1 == value,
{
    (key.to_string(), value)
}

impl<T: UbusTransport> ReadOnlyUbus<T> {
    pub closed spec fn session(&self) -> Seq<char> {
        self.session_id@
    }

    pub closed spec fn spec_transport(&self) -> T {
        self.transport
    }

    pub closed spec fn spec_timeout(&self) -> u64 {
        self.invocation_timeout_ms
    }

    pub closed spec fn spec_max_response(&self) -> usize {
        self.max_response_bytes
    }

    /// `d` is an invocation deadline: a clock reading plus the invocation
    /// timeout, saturating.
    pub open spec fn deadline_from(&self, d: u64) -> bool {
        exists|t0: u64| #[trigger] self.spec_transport().clock_read(t0) && d == (if t0 + self.spec_timeout() > u64::MAX {
            u64::MAX
        } else {
            (t0 + self.spec_timeout()) as u64
        })
    }

    /// The clock was read at or past the deadline.
    pub open spec fn timed_out(&self, d: u64) -> bool {
        exists|t: u64| #[trigger] self.spec_transport().clock_read(t) && t >= d
    }

    /// The transport answered `request` to this method with `reply`, given
    /// the time left before `d` at a clock reading and the configured
    /// response limit.
    pub open spec fn sent(&self, object: Seq<char>, method: Seq<char>, request: JsonValue, d: u64, reply: Result<JsonValue, ObservationError>) -> bool {
        exists|now: u64|
            #![trigger self.spec_transport().clock_read(now), self.spec_transport().answered(object, method, request, (d - now) as u64, self.spec_max_response(), reply)]
            self.spec_transport().clock_read(now) && now < d && self.spec_transport().answered(
                object,
                method,
                request,
                (d - now) as u64,
                self.spec_max_response(),
                reply,
            )
    }

    /// The access request for this method was answered with `reply`, which
    /// means `r` when the access required is `expected`.
    pub open spec fn access_result(&self, object: Seq<char>, method: Seq<char>, expected: bool, d: u64, r: Result<(), ObservationError>) -> bool {
        exists|req: JsonValue, reply: Result<JsonValue, ObservationError>|
            text_fields(req, access_fields(self.session(), object, method))
            && #[trigger] self.sent("session"@, "access"@, req, d, reply)
            && access_outcome(reply, expected, r)
    }

    /// Access check `c` gave `r`: its reply's meaning, or a timeout on the clock.
    pub open spec fn check_result(&self, c: int, d: u64, r: Result<(), ObservationError>) -> bool {
        (r == Err::<(), ObservationError>(ObservationError::Timeout) && self.timed_out(d))
            || self.access_result(access_checks()[c].0, access_checks()[c].1, access_checks()[c].2, d, r)
    }

    /// Every access check passed.
    pub open spec fn all_granted(&self, d: u64) -> bool {
        forall|c: int| 0 <= c < access_checks().len() ==> #[trigger] self.check_result(c, d, Ok(()))
    }

    /// The first access check that failed gave `e`.
    pub open spec fn access_refused(&self, d: u64, e: ObservationError) -> bool {
        exists|c: int| 0 <= c < access_checks().len() && (forall|k: int| 0 <= k < c ==> #[trigger] self.check_result(k, d, Ok(())))
            && #[trigger] self.check_result(c, d, Err(e))
    }

    /// The session-only request to this method was answered with `reply`.
    pub open spec fn session_read(&self, object: Seq<char>, method: Seq<char>, d: u64, reply: Result<JsonValue, ObservationError>) -> bool {
        exists|req: JsonValue| text_fields(req, session_fields(self.session())) && #[trigger] self.sent(object, method, req, d, reply)
    }

    /// The request naming this package to this method was answered with `reply`.
    pub open spec fn package_read(&self, object: Seq<char>, method: Seq<char>, package: Seq<char>, d: u64, reply: Result<JsonValue, ObservationError>) -> bool {
        exists|req: JsonValue| text_fields(req, package_fields(package, self.session())) && #[trigger] self.sent(object, method, req, d, reply)
    }

    /// A `changes` check of the package gave `r`: its reply's meaning, or a
    /// timeout on the clock.
    pub open spec fn staging_checked(&self, package: Seq<char>, d: u64, r: Result<(), ObservationError>) -> bool {
        (r == Err::<(), ObservationError>(ObservationError::Timeout) && self.timed_out(d)) || exists|reply: Result<JsonValue, ObservationError>|
            #[trigger] self.package_read("uci"@, "changes"@, package, d, reply) && staging_outcome(reply, r)
    }

    /// The session was seen to stage no change of the package.
    pub open spec fn staging_clear(&self, package: Seq<char>, d: u64) -> bool {
        self.staging_checked(package, d, Ok(()))
    }

    /// A read after every access check passed failed with `e`: a timeout on
    /// the clock, the transport's error, or a malformed reply that `parse`
    /// does not accept.
    pub open spec fn read_error(&self, object: Seq<char>, method: Seq<char>, d: u64, parse: spec_fn(JsonValue) -> bool, e: ObservationError) -> bool {
        ||| (e == ObservationError::Timeout && self.timed_out(d))
        ||| self.session_read(object, method, d, Err(e))
        ||| (e is Malformed && exists|v: JsonValue| #[trigger] self.session_read(object, method, d, Ok(v)) && !parse(v))
    }

    /// An operational read failed with `e`: an access check, or the read.
    pub open spec fn read_failed(&self, object: Seq<char>, method: Seq<char>, parse: spec_fn(JsonValue) -> bool, d: u64, e: ObservationError) -> bool {
        ||| self.access_refused(d, e)
        ||| self.all_granted(d) && self.read_error(object, method, d, parse, e)
    }

    /// Reading the committed sections of the package failed with `e`: an
    /// access check, a staging check, or the `uci get` read.
    pub open spec fn committed_failed(&self, package: Seq<char>, d: u64, e: ObservationError) -> bool {
        ||| self.access_refused(d, e)
        ||| self.all_granted(d) && (self.staging_checked(package, d, Err(e)) || self.get_error(package, d, e))
    }

    /// A package read (`uci get`) failed with `e`: a timeout on the clock,
    /// the transport's error, or a reply `uci_get_spec` rejects.
    pub open spec fn get_error(&self, package: Seq<char>, d: u64, e: ObservationError) -> bool {
        ||| (e == ObservationError::Timeout && self.timed_out(d))
        ||| self.package_read("uci"@, "get"@, package, d, Err(e))
        ||| (e is Malformed && exists|g: JsonValue| #[trigger] self.package_read("uci"@, "get"@, package, d, Ok(g))
            && uci_get_spec(package, g) is None)
    }

    /// Limits come from the signed probe assignment; there is no local
    /// default, so a caller must make the resource budget explicit.
    pub fn with_limits(transport: T, session_id: String, invocation_timeout_ms: u64, max_response_bytes: usize)
        -> (r: Result<ReadOnlyUbus<T>, ObservationError>)
        ensures
            r is Ok <==> session_id_ok(session_id@) && invocation_timeout_ms > 0 && max_response_bytes > 0,
            r matches Err(e) ==> e is Malformed,
            r matches Ok(u) ==> u.spec_transport() == transport && u.session() == session_id@ && u.spec_timeout() == invocation_timeout_ms
                && u.spec_max_response() == max_response_bytes,
    {
        if crate::text::str_empty(&session_id) || str_len(&session_id) > 128 || has_control(session_id.as_str()) {
            return Err(malformed("invalid rpcd session ID"));
        }
        if invocation_timeout_ms == 0 || max_response_bytes == 0 {
            return Err(malformed("read-only ubus limits must be non-zero"));
        }
        Ok(ReadOnlyUbus { transport, session_id, invocation_timeout_ms, max_response_bytes })
    }

    pub fn transport(&self) -> (r: &T)
        ensures
            *r == self.spec_transport(),
    {
        &self.transport
    }

    fn deadline(&self) -> (d: u64)
        ensures
            self.deadline_from(d),
    {
        let t0 = self.transport.now_ms();
        let d = t0.saturating_add(self.invocation_timeout_ms);
        assert(self.spec_transport().clock_read(t0));
        d
    }

    /// Invokes a read-only method with the time left before `deadline`; any
    /// other method is refused without reaching the transport.
    fn call_until(&self, deadline: u64, object: &str, method: &str, request: JsonValue) -> (r: Result<JsonValue, ObservationError>)
        ensures
            !read_only_method_spec(object@, method@) ==> (r matches Err(ObservationError::UnsupportedMethod { object: o, method: m })
                && o@ == object@ && m@ == method@),
            read_only_method_spec(object@, method@) ==> (r == Err::<JsonValue, ObservationError>(ObservationError::Timeout)
                && self.timed_out(deadline)) || self.sent(object@, method@, request, deadline, r),
    {
        if !read_only_method(object, method) {
            return Err(ObservationError::UnsupportedMethod { object: object.to_string(), method: method.to_string() });
        }
        let now = self.transport.now_ms();
        let remaining = if deadline > now { deadline - now } else { 0 };
        if remaining == 0 {
            assert(self.spec_transport().clock_read(now));
            return Err(ObservationError::Timeout);
        }
        let r = self.transport.invoke(object, method, &request, remaining, self.max_response_bytes);
        assert(self.spec_transport().clock_read(now));
        assert(remaining == (deadline - now) as u64);
        assert(self.spec_transport().answered(object@, method@, request, (deadline - now) as u64, self.spec_max_response(), r));
        r
    }

    fn require_access(&self, deadline: u64, object: &str, method: &str, expected: bool) -> (r: Result<(), ObservationError>)
        ensures
            (r == Err::<(), ObservationError>(ObservationError::Timeout) && self.timed_out(deadline))
                || self.access_result(object@, method@, expected, deadline, r),
    {
        let mut fields: Vec<(String, JsonValue)> = Vec::new();
        fields.push(entry("ubus_rpc_session", text_value(self.session_id.as_str())));
        fields.push(entry("scope", text_value("ubus")));
        fields.push(entry("object", text_value(object)));
        fields.push(entry("function", text_value(method)));
        let request = JsonValue::Object(fields);
        proof {
            assert(text_fields(request, access_fields(self.session(), object@, method@)));
        }
        let answer = self.call_until(deadline, "session", "access", request);
        let reply = match answer {
            Ok(v) => v,
            Err(e) => {
                return Err(e);
            },
        };
        match reply.get("access") {
            Some(JsonValue::Bool(granted)) => {
                if *granted == expected {
                    Ok(())
                } else if expected {
                    Err(ObservationError::Denied("rpcd session lacks required read access".to_string()))
                } else {
                    Err(ObservationError::Denied("rpcd session grants forbidden UCI write access".to_string()))
                }
            },
            _ => Err(malformed("session access reply lacks boolean access")),
        }
    }

    /// Runs access check `c`.
    fn check_at(&self, deadline: u64, c: usize) -> (r: Result<(), ObservationError>)
        requires
            c < 12,
        ensures
            self.check_result(c as int, deadline, r),
    {
        if c == 0 {
            self.require_access(deadline, "uci", "get", true)
        } else if c == 1 {
            self.require_access(deadline, "uci", "changes", true)
        } else if c == 2 {
            self.require_access(deadline, "network.interface", "dump", true)
        } else if c == 3 {
            self.require_access(deadline, "network.device", "status", true)
        } else if c == 4 {
            self.require_access(deadline, "network.wireless", "status", true)
        } else if c == 5 {
            self.require_access(deadline, "uci", "set", false)
        } else if c == 6 {
            self.require_access(deadline, "uci", "add", false)
        } else if c == 7 {
            self.require_access(deadline, "uci", "delete", false)
        } else if c == 8 {
            self.require_access(deadline, "uci", "commit", false)
        } else if c == 9 {
            self.require_access(deadline, "uci", "apply", false)
        } else if c == 10 {
            self.require_access(deadline, "uci", "confirm", false)
        } else {
            self.require_access(deadline, "uci", "rollback", false)
        }
    }

    /// Every read permission must be granted and every UCI write refused.
    fn authorize_until(&self, deadline: u64) -> (r: Result<(), ObservationError>)
        ensures
            match r {
                Ok(()) => self.all_granted(deadline),
                Err(e) => self.access_refused(deadline, e),
            },
    {
        let mut c: usize = 0;
        while c < 12
            invariant
                c <= 12,
                access_checks().len() == 12,
                forall|k: int| 0 <= k < c ==> #[trigger] self.check_result(k, deadline, Ok(())),
            decreases 12 - c,
        {
            match self.check_at(deadline, c) {
                Err(e) => {
                    assert(self.check_result(c as int, deadline, Err(e)));
                    return Err(e);
                },
                Ok(()) => {},
            }
            c = c + 1;
        }
        Ok(())
    }

    /// Checks that the rpcd session may read everything observation needs
    /// and may write nothing.
    pub fn verify_read_session(&self) -> (r: Result<(), ObservationError>)
        ensures
            exists|d: u64| #[trigger] self.deadline_from(d) && match r {
                Ok(()) => self.all_granted(d),
                Err(e) => self.access_refused(d, e),
            },
    {
        let deadline = self.deadline();
        self.authorize_until(deadline)
    }

    fn package_request(&self, package: &str) -> (r: JsonValue)
        ensures
            text_fields(r, package_fields(package@, self.session())),
    {
        let mut fields: Vec<(String, JsonValue)> = Vec::new();
        fields.push(entry("config", text_value(package)));
        fields.push(entry("ubus_rpc_session", text_value(self.session_id.as_str())));
        let r = JsonValue::Object(fields);
        assert(text_fields(r, package_fields(package@, self.session())));
        r
    }

    fn session_request(&self) -> (r: JsonValue)
        ensures
            text_fields(r, session_fields(self.session())),
    {
        let mut fields: Vec<(String, JsonValue)> = Vec::new();
        fields.push(entry("ubus_rpc_session", text_value(self.session_id.as_str())));
        let r = JsonValue::Object(fields);
        assert(text_fields(r, session_fields(self.session())));
        r
    }

    fn assert_empty_staging(&self, deadline: u64, package: &str) -> (r: Result<(), ObservationError>)
        ensures
            self.staging_checked(package@, deadline, r),
    {
        let request = self.package_request(package);
        let answer = self.call_until(deadline, "uci", "changes", request);
        proof {
            if !(answer == Err::<JsonValue, ObservationError>(ObservationError::Timeout) && self.timed_out(deadline)) {
                assert(self.package_read("uci"@, "changes"@, package@, deadline, answer));
            }
        }
        let reply = match answer {
            Ok(v) => v,
            Err(e) => {
                return Err(e);
            },
        };
        match reply.get("changes") {
            None => Err(malformed("uci changes reply lacks changes")),
            Some(JsonValue::Array(items)) => if items.len() == 0 {
                Ok(())
            } else {
                Err(ObservationError::Unavailable("rpcd session contains staging changes; refusing committed label".to_string()))
            },
            Some(JsonValue::Object(es)) => if es.len() == 0 {
                Ok(())
            } else {
                Err(ObservationError::Unavailable("rpcd session contains staging changes; refusing committed label".to_string()))
            },
            Some(_) => Err(ObservationError::Unavailable(
                "rpcd session contains staging changes; refusing committed label".to_string(),
            )),
        }
    }

    /// rpcd `uci get` overlays its session delta, so a committed label is
    /// only truthful after empty `changes` checks immediately before and after it.
    pub fn committed_sections(&self, package: &str) -> (r: Result<Vec<ConfigSection>, ObservationError>)
        ensures
            !package_ok(package@) ==> r matches Err(ObservationError::Malformed(_)),
            r matches Ok(v) ==> exists|reply: JsonValue| uci_get_spec(package@, reply) == Some(view_sections(v@)),
            package_ok(package@) ==> exists|d: u64| #[trigger] self.deadline_from(d) && match r {
                Ok(v) => self.all_granted(d) && self.staging_clear(package@, d) && exists|g: JsonValue| #[trigger] self.package_read(
                    "uci"@,
                    "get"@,
                    package@,
                    d,
                    Ok(g),
                ) && uci_get_spec(package@, g) == Some(view_sections(v@)),
                Err(e) => self.committed_failed(package@, d, e),
            },
    {
        match validate_package(package) {
            Err(e) => {
                return Err(e);
            },
            Ok(()) => {},
        }
        let deadline = self.deadline();
        match self.authorize_until(deadline) {
            Err(e) => {
                return Err(e);
            },
            Ok(()) => {},
        }
        match self.assert_empty_staging(deadline, package) {
            Err(e) => {
                return Err(e);
            },
            Ok(()) => {},
        }
        let request = self.package_request(package);
        let answer = self.call_until(deadline, "uci", "get", request);
        let reply = match answer {
            Ok(v) => v,
            Err(e) => {
                return Err(e);
            },
        };
        assert(self.package_read("uci"@, "get"@, package@, deadline, Ok(reply)));
        let sections = match parse_uci_get(package, &reply) {
            Ok(s) => s,
            Err(e) => {
                return Err(e);
            },
        };
        match self.assert_empty_staging(deadline, package) {
            Err(e) => {
                return Err(e);
            },
            Ok(()) => {},
        }
        Ok(sections)
    }

    /// The merged rpcd session view; it must be stored as session staging.
    pub fn session_staging_sections(&self, package: &str) -> (r: Result<Vec<ConfigSection>, ObservationError>)
        ensures
            !package_ok(package@) ==> r matches Err(ObservationError::Malformed(_)),
            r matches Ok(v) ==> exists|reply: JsonValue| uci_get_spec(package@, reply) == Some(view_sections(v@)),
            package_ok(package@) ==> exists|d: u64| #[trigger] self.deadline_from(d) && match r {
                Ok(v) => self.all_granted(d) && exists|g: JsonValue| #[trigger] self.package_read("uci"@, "get"@, package@, d, Ok(g))
                    && uci_get_spec(package@, g) == Some(view_sections(v@)),
                Err(e) => self.access_refused(d, e) || (self.all_granted(d) && self.get_error(package@, d, e)),
            },
    {
        match validate_package(package) {
            Err(e) => {
                return Err(e);
            },
            Ok(()) => {},
        }
        let deadline = self.deadline();
        match self.authorize_until(deadline) {
            Err(e) => {
                return Err(e);
            },
            Ok(()) => {},
        }
        let request = self.package_request(package);
        let answer = self.call_until(deadline, "uci", "get", request);
        let reply = match answer {
            Ok(v) => v,
            Err(e) => {
                return Err(e);
            },
        };
        assert(self.package_read("uci"@, "get"@, package@, deadline, Ok(reply)));
        parse_uci_get(package, &reply)
    }

    pub fn interfaces(&self) -> (r: Result<OperationalCollection, ObservationError>)
        ensures
            r matches Ok(c) ==> exists|reply: JsonValue| netifd_interfaces_spec(reply) == Some(c@),
            exists|d: u64| #[trigger] self.deadline_from(d) && match r {
                Ok(c) => self.all_granted(d) && exists|v: JsonValue| #[trigger] self.session_read("network.interface"@, "dump"@, d, Ok(v))
                    && netifd_interfaces_spec(v) == Some(c@),
                Err(e) => self.read_failed("network.interface"@, "dump"@, |v: JsonValue| netifd_interfaces_spec(v) is Some, d, e),
            },
    {
        let deadline = self.deadline();
        match self.authorize_until(deadline) {
            Err(e) => {
                return Err(e);
            },
            Ok(()) => {},
        }
        let request = self.session_request();
        let reply = self.call_until(deadline, "network.interface", "dump", request);
        match reply {
            Ok(v) => {
                assert(self.session_read("network.interface"@, "dump"@, deadline, Ok(v)));
                parse_netifd_interfaces(&v)
            },
            Err(e) => Err(e),
        }
    }

    pub fn devices(&self) -> (r: Result<OperationalCollection, ObservationError>)
        ensures
            r matches Ok(c) ==> exists|reply: JsonValue| netifd_devices_spec(reply) == Some(c@),
            exists|d: u64| #[trigger] self.deadline_from(d) && match r {
                Ok(c) => self.all_granted(d) && exists|v: JsonValue| #[trigger] self.session_read("network.device"@, "status"@, d, Ok(v))
                    && netifd_devices_spec(v) == Some(c@),
                Err(e) => self.read_failed("network.device"@, "status"@, |v: JsonValue| netifd_devices_spec(v) is Some, d, e),
            },
    {
        let deadline = self.deadline();
        match self.authorize_until(deadline) {
            Err(e) => {
                return Err(e);
            },
            Ok(()) => {},
        }
        let request = self.session_request();
        let reply = self.call_until(deadline, "network.device", "status", request);
        match reply {
            Ok(v) => {
                assert(self.session_read("network.device"@, "status"@, deadline, Ok(v)));
                parse_netifd_devices(&v)
            },
            Err(e) => Err(e),
        }
    }

    pub fn wireless(&self) -> (r: Result<OperationalCollection, ObservationError>)
        ensures
            r matches Ok(c) ==> exists|reply: JsonValue| netifd_wireless_spec(reply) == Some(c@),
            exists|d: u64| #[trigger] self.deadline_from(d) && match r {
                Ok(c) => self.all_granted(d) && exists|v: JsonValue| #[trigger] self.session_read("network.wireless"@, "status"@, d, Ok(v))
                    && netifd_wireless_spec(v) == Some(c@),
                Err(e) => self.read_failed("network.wireless"@, "status"@, |v: JsonValue| netifd_wireless_spec(v) is Some, d, e),
            },
    {
        let deadline = self.deadline();
        match self.authorize_until(deadline) {
            Err(e) => {
                return Err(e);
            },
            Ok(()) => {},
        }
        let request = self.session_request();
        let reply = self.call_until(deadline, "network.wireless", "status", request);
        match reply {
            Ok(v) => {
                assert(self.session_read("network.wireless"@, "status"@, deadline, Ok(v)));
                parse_netifd_wireless(&v)
            },
            Err(e) => Err(e),
        }
    }
}

/// The decimal text of a status code, with a leading `-` when negative.
pub open spec fn status_digits(status: i32) -> Seq<u8> {
    if status < 0 { seq![45u8] + decimal((-status) as nat) } else { decimal(status as nat) }
}

/// The text `libubus status ` followed by the status code.
pub open spec fn status_message(status: i32) -> Seq<char> {
    ascii_chars(seq![108u8, 105u8, 98u8, 117u8, 98u8, 117u8, 115u8, 32u8, 115u8, 116u8, 97u8, 116u8, 117u8, 115u8, 32u8] + status_digits(status))
}

/// `e` is the error a native ubus worker's status reports: an oversized
/// reply, a timeout, a denial, a malformed reply, or otherwise the status
/// itself as unavailable.
pub open spec fn status_error_is(status: i32, e: ObservationError) -> bool {
    if status == 7001 {
        e == ObservationError::ResponseTooLarge
    } else if status == 7002 {
        e == ObservationError::Timeout
    } else if status == 7003 {
        e matches ObservationError::Denied(m) && m@ == "ubus permission denied"@
    } else if status == 7004 {
        e matches ObservationError::Malformed(m) && m@ == "multipart, empty or invalid native ubus reply"@
    } else {
        e matches ObservationError::Unavailable(m) && m@ == status_message(status)
    }
}

/// The observation error a native ubus worker's non-zero status reports.
pub fn native_status_error(status: i32) -> (e: ObservationError)
    ensures
        status_error_is(status, e),
{
    if status == 7001 {
        return ObservationError::ResponseTooLarge;
    }
    if status == 7002 {
        return ObservationError::Timeout;
    }
    if status == 7003 {
        return ObservationError::Denied("ubus permission denied".to_string());
    }
    if status == 7004 {
        return ObservationError::Malformed("multipart, empty or invalid native ubus reply".to_string());
    }
    let mut bytes: Vec<u8> = Vec::new();
    crate::json::extend_bytes(&mut bytes, &[108u8, 105u8, 98u8, 117u8, 98u8, 117u8, 115u8, 32u8, 115u8, 116u8, 97u8, 116u8, 117u8, 115u8, 32u8]);
    let magnitude: u64 = if status < 0 {
        bytes.push(45);
        (0i64 - status as i64) as u64
    } else {
        status as u64
    };
    let digits = decimal_digits(magnitude);
    crate::json::extend_bytes(&mut bytes, digits.as_slice());
    proof {
        lemma_decimal_digits(magnitude as nat);
        assert(bytes@ =~= seq![108u8, 105u8, 98u8, 117u8, 98u8, 117u8, 115u8, 32u8, 115u8, 116u8, 97u8, 116u8, 117u8, 115u8, 32u8]
            + status_digits(status));
    }
    ObservationError::Unavailable(ascii_string(bytes))
}

/// The status word of a native worker reply header: its first four bytes,
/// big-endian, as a signed integer.
pub open spec fn header_status(h: Seq<u8>) -> i32 {
    (h[0] as u32 * 16777216 + h[1] as u32 * 65536 + h[2] as u32 * 256 + h[3] as u32) as i32
}

/// The payload length of a native worker reply header: its last four
/// bytes, big-endian.
pub open spec fn header_length(h: Seq<u8>) -> u32 {
    (h[4] as u32 * 16777216 + h[5] as u32 * 65536 + h[6] as u32 * 256 + h[7] as u32) as u32
}

/// Checks a native worker reply header against the response limit: a
/// payload over the limit is too large; a non-zero status with a payload is
/// malformed, and without one reports the status; a zero status gives the
/// payload length to read.
pub fn native_reply_header(header: &[u8], max_response_bytes: usize) -> (r: Result<usize, ObservationError>)
    requires
        header@.len() == 8,
    ensures
        header_length(header@) > max_response_bytes ==> r == Err::<usize, ObservationError>(ObservationError::ResponseTooLarge),
        header_length(header@) <= max_response_bytes && header_status(header@) != 0 && header_length(header@) != 0
            ==> (r matches Err(ObservationError::Malformed(m)) && m@ == "native worker error included payload"@),
        header_length(header@) == 0 && header_status(header@) != 0 ==> (r matches Err(e) && status_error_is(header_status(header@), e)),
        header_length(header@) <= max_response_bytes && header_status(header@) == 0 ==> r == Ok::<usize, ObservationError>(
            header_length(header@) as usize,
        ),
{
    let status_word: u32 = header[0] as u32 * 16777216 + header[1] as u32 * 65536 + header[2] as u32 * 256 + header[3] as u32;
    let status = status_word as i32;
    let length: u32 = header[4] as u32 * 16777216 + header[5] as u32 * 65536 + header[6] as u32 * 256 + header[7] as u32;
    if length as usize > max_response_bytes {
        return Err(ObservationError::ResponseTooLarge);
    }
    if status != 0 {
        if length != 0 {
            return Err(ObservationError::Malformed("native worker error included payload".to_string()));
        }
        return Err(native_status_error(status));
    }
    Ok(length as usize)
}

} // verus!

//! Byte and character predicates shared by the validators.
use vstd::prelude::*;
use vstd::string::*;

verus! {

/// Byte length of a string: the length of its UTF-8 encoding.
pub open spec fn byte_len(s: Seq<char>) -> nat {
    vstd::utf8::encode_utf8(s).len()
}

/// Unicode general category Cc (what `char::is_control` tests).
pub open spec fn is_control_spec(c: char) -> bool {
    (c as u32) < 0x20 || (0x7f <= (c as u32) && (c as u32) <= 0x9f)
}

pub open spec fn has_control_spec(s: Seq<char>) -> bool {
    exists|i: int| 0 <= i < s.len() && is_control_spec(#[trigger] s[i])
}

pub fn is_control(c: char) -> (r: bool)
    ensures
        r == is_control_spec(c),
{
    let u = c as u32;
    u < 0x20 || (0x7f <= u && u <= 0x9f)
}

/// Whether any character of `s` is a control character.
pub fn has_control(s: &str) -> (r: bool)
    ensures
        r == has_control_spec(s@),
{
    broadcast use vstd::string::group_string_axioms;
    let mut found = false;
    for c in it: s.chars()
        invariant
            it.seq() == s@,
            found == (exists|i: int| 0 <= i < it.index() && is_control_spec(#[trigger] s@[i])),
    {
        assert(s@[it.index() as int] == c);
        if is_control(c) {
            found = true;
        }
    }
    found
}

/// Exact string equality.
pub fn str_eq(a: &str, b: &str) -> (r: bool)
    ensures
        r == (a@ == b@),
{
    broadcast use vstd::utf8::group_utf8_lib;
    let x = a.as_bytes();
    let y = b.as_bytes();
    if x.len() != y.len() {
        proof {
            if a@ == b@ {
                assert(a.spec_bytes() == b.spec_bytes());
            }
        }
        return false;
    }
    let mut i: usize = 0;
    while i < x.len()
        invariant
            x@ == a.spec_bytes(),
            y@ == b.spec_bytes(),
            x@.len() == y@.len(),
            i <= x@.len(),
            forall|j: int| 0 <= j < i ==> x@[j] == y@[j],
        decreases x@.len() - i,
    {
        if x[i] != y[i] {
            proof {
                if a@ == b@ {
                    assert(a.spec_bytes() == b.spec_bytes());
                }
            }
            return false;
        }
        i = i + 1;
    }
    proof {
        assert(x@ =~= y@);
        vstd::utf8::encode_utf8_decode_utf8(a@);
        vstd::utf8::encode_utf8_decode_utf8(b@);
    }
    true
}


/// The characters of a string, as a vector.
pub fn chars_of(s: &str) -> (r: Vec<char>)
    ensures
        r@ == s@,
{
    broadcast use vstd::string::group_string_axioms;
    let mut out: Vec<char> = Vec::new();
    for c in it: s.chars()
        invariant
            it.seq() == s@,
            out@ == s@.subrange(0, it.index() as int),
    {
        out.push(c);
        assert(out@ =~= s@.subrange(0, it.index() + 1));
    }
    assert(out@ =~= s@);
    out
}

pub open spec fn view_strings(v: Seq<String>) -> Seq<Seq<char>> {
    v.map_values(|s: String| s@)
}

/// Element-wise equality of two string lists.
pub fn strings_eq(a: &Vec<String>, b: &Vec<String>) -> (r: bool)
    ensures
        r == (view_strings(a@) == view_strings(b@)),
{
    if a.len() != b.len() {
        proof {
            if view_strings(a@) == view_strings(b@) {
                assert(view_strings(a@).len() == view_strings(b@).len());
            }
        }
        return false;
    }
    let mut i: usize = 0;
    while i < a.len()
        invariant
            a@.len() == b@.len(),
            i <= a@.len(),
            forall|j: int| 0 <= j < i ==> a@[j]@ == b@[j]@,
        decreases a@.len() - i,
    {
        if a[i] != b[i] {
            proof {
                if view_strings(a@) == view_strings(b@) {
                    assert(view_strings(a@)[i as int] == view_strings(b@)[i as int]);
                }
            }
            return false;
        }
        i = i + 1;
    }
    assert(view_strings(a@) =~= view_strings(b@));
    true
}

/// A copy of a string list with the same contents.
pub fn clone_strings(v: &Vec<String>) -> (r: Vec<String>)
    ensures
        view_strings(r@) == view_strings(v@),
{
    let mut out: Vec<String> = Vec::new();
    let mut i: usize = 0;
    while i < v.len()
        invariant
            i <= v@.len(),
            out@.len() == i,
            forall|j: int| 0 <= j < i ==> out@[j]@ == v@[j]@,
        decreases v@.len() - i,
    {
        out.push(v[i].clone());
        i = i + 1;
    }
    assert(view_strings(out@) =~= view_strings(v@));
    out
}

/// Whether a string list contains a string with the given contents.
pub fn strings_contain(v: &Vec<String>, s: &String) -> (r: bool)
    ensures
        r == view_strings(v@).contains(s@),
{
    let mut i: usize = 0;
    while i < v.len()
        invariant
            i <= v@.len(),
            forall|j: int| 0 <= j < i ==> v@[j]@ != s@,
        decreases v@.len() - i,
    {
        if v[i] == *s {
            assert(view_strings(v@)[i as int] == s@);
            return true;
        }
        i = i + 1;
    }
    proof {
        if view_strings(v@).contains(s@) {
            let k = choose|k: int| 0 <= k < view_strings(v@).len() && view_strings(v@)[k] == s@;
            assert(v@[k]@ == s@);
        }
    }
    false
}

/// Whether the strings of a list are pairwise distinct.
pub fn strings_unique(v: &Vec<String>) -> (r: bool)
    ensures
        r == view_strings(v@).no_duplicates(),
{
    let mut i: usize = 0;
    while i < v.len()
        invariant
            i <= v@.len(),
            forall|a: int, b: int| 0 <= a < b < i ==> v@[a]@ != v@[b]@,
        decreases v@.len() - i,
    {
        let mut j: usize = 0;
        while j < i
            invariant
                i < v@.len(),
                j <= i,
                forall|a: int, b: int| 0 <= a < b < i ==> v@[a]@ != v@[b]@,
                forall|a: int| 0 <= a < j ==> v@[a]@ != v@[i as int]@,
            decreases i - j,
        {
            if v[j] == v[i] {
                proof {
                    assert(view_strings(v@)[j as int] == view_strings(v@)[i as int]);
                }
                return false;
            }
            j = j + 1;
        }
        i = i + 1;
    }
    assert forall|a: int, b: int| 0 <= a < view_strings(v@).len() && 0 <= b < view_strings(v@).len() && a != b
        implies view_strings(v@)[a] != view_strings(v@)[b] by {
        if a < b { assert(v@[a]@ != v@[b]@); } else { assert(v@[b]@ != v@[a]@); }
    }
    true
}


/// Whether a string consists of exactly the given characters.
pub fn is_word(s: &str, w: &[char]) -> (r: bool)
    ensures
        r == (s@ == w@),
{
    let c = chars_of(s);
    if c.len() != w.len() {
        return false;
    }
    let mut i: usize = 0;
    while i < c.len()
        invariant
            c@ == s@,
            c@.len() == w@.len(),
            i <= c@.len(),
            forall|j: int| 0 <= j < i ==> c@[j] == w@[j],
        decreases c@.len() - i,
    {
        if c[i] != w[i] {
            return false;
        }
        i = i + 1;
    }
    assert(c@ =~= w@);
    true
}

/// Unicode `White_Space` (what `char::is_whitespace` tests).
pub open spec fn is_whitespace_spec(c: char) -> bool {
    let u = c as u32;
    (0x09 <= u && u <= 0x0d) || u == 0x20 || u == 0x85 || u == 0xa0 || u == 0x1680
        || (0x2000 <= u && u <= 0x200a) || u == 0x2028 || u == 0x2029 || u == 0x202f
        || u == 0x205f || u == 0x3000
}

pub fn is_whitespace(c: char) -> (r: bool)
    ensures
        r == is_whitespace_spec(c),
{
    let u = c as u32;
    (0x09 <= u && u <= 0x0d) || u == 0x20 || u == 0x85 || u == 0xa0 || u == 0x1680
        || (0x2000 <= u && u <= 0x200a) || u == 0x2028 || u == 0x2029 || u == 0x202f
        || u == 0x205f || u == 0x3000
}

pub open spec fn is_ascii_alnum(c: char) -> bool {
    ('0' <= c && c <= '9') || ('a' <= c && c <= 'z') || ('A' <= c && c <= 'Z')
}

/// Nonempty, at most `max` bytes, and only ASCII letters, digits and `_`.
pub open spec fn word_ident(s: Seq<char>, max: nat) -> bool {
    &&& s.len() > 0
    &&& byte_len(s) <= max
    &&& forall|i: int| 0 <= i < s.len() ==> (is_ascii_alnum(#[trigger] s[i]) || s[i] == '_')
}

pub fn word_ident_exec(s: &str, max: usize) -> (r: bool)
    ensures
        r == word_ident(s@, max as nat),
{
    let n = s.as_bytes().len();
    if n > max {
        return false;
    }
    let c = chars_of(s);
    if c.len() == 0 {
        return false;
    }
    let mut i: usize = 0;
    while i < c.len()
        invariant
            c@ == s@,
            i <= c@.len(),
            forall|j: int| 0 <= j < i ==> (is_ascii_alnum(#[trigger] c@[j]) || c@[j] == '_'),
        decreases c@.len() - i,
    {
        let x = c[i];
        if !(('0' <= x && x <= '9') || ('a' <= x && x <= 'z') || ('A' <= x && x <= 'Z') || x == '_') {
            return false;
        }
        i = i + 1;
    }
    true
}

/// Whether the string is empty.
pub fn str_empty(s: &String) -> (r: bool)
    ensures
        r == (s@.len() == 0),
{
    s.as_str().is_empty()
}

/// Byte length of a string.
pub fn str_len(s: &String) -> (r: usize)
    ensures
        r == byte_len(s@),
{
    let t = s.as_str();
    t.as_bytes().len()
}

} // verus!

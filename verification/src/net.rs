//! Textual IP addresses: splitting, decimal/hex groups, and the address grammar.
use vstd::prelude::*;

verus! {

/// The pieces of `s` between occurrences of `sep` (like `str::split`).
pub open spec fn split(s: Seq<char>, sep: char) -> Seq<Seq<char>>
    decreases s.len(),
{
    if s.contains(sep) {
        let k = choose|k: int| is_first(s, sep, k);
        if 0 <= k < s.len() {
            seq![s.subrange(0, k)] + split(s.subrange(k + 1, s.len() as int), sep)
        } else {
            seq![s]
        }
    } else {
        seq![s]
    }
}

pub open spec fn is_first(v: Seq<char>, c: char, k: int) -> bool {
    0 <= k < v.len() && v[k] == c && forall|j: int| 0 <= j < k ==> v[j] != c
}

pub proof fn lemma_first_exists(s: Seq<char>, sep: char)
    requires
        s.contains(sep),
    ensures
        exists|k: int| is_first(s, sep, k),
    decreases s.len(),
{
    if s[0] == sep {
        assert(is_first(s, sep, 0));
    } else {
        let t = s.subrange(1, s.len() as int);
        let j = choose|j: int| 0 <= j < s.len() && s[j] == sep;
        assert(t[j - 1] == sep);
        lemma_first_exists(t, sep);
        let k = choose|k: int| is_first(t, sep, k);
        assert forall|q: int| 0 <= q < k + 1 implies s[q] != sep by {
            if q > 0 { assert(s[q] == t[q - 1]); }
        }
        assert(is_first(s, sep, k + 1));
    }
}

pub proof fn lemma_split_first(s: Seq<char>, sep: char, k: int)
    requires
        is_first(s, sep, k),
    ensures
        split(s, sep) == seq![s.subrange(0, k)] + split(s.subrange(k + 1, s.len() as int), sep),
{
    assert(s.contains(sep));
    let kk = choose|kk: int| is_first(s, sep, kk);
    lemma_first_exists(s, sep);
    assert(kk == k) by {
        if kk < k { assert(s[kk] != sep); }
        if kk > k { assert(s[k] != sep); }
    }
}

pub proof fn lemma_split_none(s: Seq<char>, sep: char)
    requires
        forall|i: int| 0 <= i < s.len() ==> s[i] != sep,
    ensures
        split(s, sep) == seq![s],
{
    if s.contains(sep) {
        let i = choose|i: int| 0 <= i < s.len() && s[i] == sep;
        assert(false);
    }
}

/// The pieces joined back together with `sep` between them.
pub open spec fn join(parts: Seq<Seq<char>>, sep: char) -> Seq<char>
    decreases parts.len(),
{
    if parts.len() == 0 {
        Seq::empty()
    } else if parts.len() == 1 {
        parts[0]
    } else {
        parts[0] + seq![sep] + join(parts.drop_first(), sep)
    }
}

pub proof fn lemma_split_nonempty(s: Seq<char>, sep: char)
    ensures
        split(s, sep).len() >= 1,
    decreases s.len(),
{
    if s.contains(sep) {
        lemma_first_exists(s, sep);
        let k = choose|k: int| is_first(s, sep, k);
        lemma_split_first(s, sep, k);
        lemma_split_nonempty(s.subrange(k + 1, s.len() as int), sep);
    }
}

/// Splitting and joining with the same separator gives the text back.
pub proof fn lemma_split_join(s: Seq<char>, sep: char)
    ensures
        join(split(s, sep), sep) == s,
    decreases s.len(),
{
    if s.contains(sep) {
        lemma_first_exists(s, sep);
        let k = choose|k: int| is_first(s, sep, k);
        lemma_split_first(s, sep, k);
        let rest = s.subrange(k + 1, s.len() as int);
        lemma_split_join(rest, sep);
        lemma_split_nonempty(rest, sep);
        let ps = split(s, sep);
        assert(ps.drop_first() =~= split(rest, sep));
        assert(s =~= s.subrange(0, k) + seq![sep] + rest);
    } else {
        lemma_split_none(s, sep);
    }
}

/// A separator-free head followed by the separator splits off as one piece.
pub proof fn lemma_split_cons(a: Seq<char>, rest: Seq<char>, sep: char)
    requires
        forall|i: int| 0 <= i < a.len() ==> a[i] != sep,
    ensures
        split(a + seq![sep] + rest, sep) == seq![a] + split(rest, sep),
{
    let s = a + seq![sep] + rest;
    assert(is_first(s, sep, a.len() as int));
    lemma_split_first(s, sep, a.len() as int);
    assert(s.subrange(0, a.len() as int) =~= a);
    assert(s.subrange(a.len() as int + 1, s.len() as int) =~= rest);
}

pub open spec fn view_parts(v: Seq<Vec<char>>) -> Seq<Seq<char>> {
    v.map_values(|p: Vec<char>| p@)
}

/// Splits a character vector at every `sep`.
pub fn split_chars(s: &Vec<char>, sep: char) -> (r: Vec<Vec<char>>)
    ensures
        view_parts(r@) == split(s@, sep),
        r@.len() >= 1,
{
    let mut parts: Vec<Vec<char>> = Vec::new();
    let mut cur: Vec<char> = Vec::new();
    let mut j: usize = 0;
    let mut i: usize = 0;
    assert(s@.subrange(0, s@.len() as int) =~= s@);
    assert(view_parts(parts@) =~= Seq::<Seq<char>>::empty());
    while i < s.len()
        invariant
            j <= i <= s@.len(),
            cur@ == s@.subrange(j as int, i as int),
            forall|q: int| j <= q < i ==> s@[q] != sep,
            split(s@, sep) == view_parts(parts@) + split(s@.subrange(j as int, s@.len() as int), sep),
        decreases s@.len() - i,
    {
        if s[i] == sep {
            let ghost t = s@.subrange(j as int, s@.len() as int);
            proof {
                assert(is_first(t, sep, (i - j) as int));
                lemma_split_first(t, sep, (i - j) as int);
                assert(t.subrange(0, (i - j) as int) =~= cur@);
                assert(t.subrange((i - j) + 1, t.len() as int) =~= s@.subrange(i + 1, s@.len() as int));
            }
            let ghost old_parts = parts@;
            parts.push(cur);
            assert(view_parts(parts@) =~= view_parts(old_parts) + seq![s@.subrange(j as int, i as int)]);
            cur = Vec::new();
            j = i + 1;
        } else {
            cur.push(s[i]);
        }
        i = i + 1;
        assert(cur@ =~= s@.subrange(j as int, i as int));
    }
    proof {
        let t = s@.subrange(j as int, s@.len() as int);
        assert(t =~= cur@);
        lemma_split_none(t, sep);
    }
    let ghost old_parts = parts@;
    parts.push(cur);
    assert(view_parts(parts@) =~= view_parts(old_parts) + seq![s@.subrange(j as int, s@.len() as int)]);
    parts
}

pub open spec fn is_digit(c: char) -> bool {
    '0' <= c && c <= '9'
}

pub open spec fn is_hex(c: char) -> bool {
    ('0' <= c && c <= '9') || ('a' <= c && c <= 'f') || ('A' <= c && c <= 'F')
}

pub open spec fn digit_val(c: char) -> nat {
    if '0' <= c && c <= '9' {
        ((c as nat) - 48) as nat
    } else if 'a' <= c && c <= 'f' {
        ((c as nat) - 87) as nat
    } else {
        ((c as nat) - 55) as nat
    }
}

/// Value of a digit string in the given radix.
pub open spec fn radix_val(s: Seq<char>, radix: nat) -> nat
    decreases s.len(),
{
    if s.len() == 0 { 0 } else { radix_val(s.drop_last(), radix) * radix + digit_val(s.last()) }
}

/// One IPv4 octet: 1 to 3 decimal digits, no leading zero, at most 255.
pub open spec fn octet_text(p: Seq<char>) -> bool {
    &&& 1 <= p.len() <= 3
    &&& forall|i: int| 0 <= i < p.len() ==> is_digit(#[trigger] p[i])
    &&& (p.len() == 1 || p[0] != '0')
    &&& radix_val(p, 10) <= 255
}

/// Dotted-quad IPv4 text.
pub open spec fn ipv4_spec(s: Seq<char>) -> Option<(u8, u8, u8, u8)> {
    let p = split(s, '.');
    if p.len() == 4 && octet_text(p[0]) && octet_text(p[1]) && octet_text(p[2]) && octet_text(p[3]) {
        Some((radix_val(p[0], 10) as u8, radix_val(p[1], 10) as u8, radix_val(p[2], 10) as u8, radix_val(p[3], 10) as u8))
    } else {
        None
    }
}

/// One IPv6 group: 1 to 4 hexadecimal digits.
pub open spec fn group_text(p: Seq<char>) -> bool {
    &&& 1 <= p.len() <= 4
    &&& forall|i: int| 0 <= i < p.len() ==> is_hex(#[trigger] p[i])
}

pub open spec fn all_groups(p: Seq<Seq<char>>, n: int) -> bool {
    forall|i: int| 0 <= i < n ==> group_text(#[trigger] p[i])
}

pub open spec fn group_vals(p: Seq<Seq<char>>, n: int) -> Seq<u16> {
    Seq::new(n as nat, |i: int| radix_val(p[i], 16) as u16)
}

pub open spec fn v4_groups(q: (u8, u8, u8, u8)) -> Seq<u16> {
    seq![((q.0 as u16) * 256 + q.1 as u16) as u16, ((q.2 as u16) * 256 + q.3 as u16) as u16]
}

/// Colon-separated groups, with an optional trailing embedded IPv4 address
/// when `allow_v4`; at most `limit` 16-bit groups in all.
pub open spec fn groups_spec(t: Seq<char>, limit: int, allow_v4: bool) -> Option<Seq<u16>> {
    if t.len() == 0 {
        Some(Seq::empty())
    } else {
        let p = split(t, ':');
        let n = p.len() as int;
        if all_groups(p, n) && n <= limit {
            Some(group_vals(p, n))
        } else if allow_v4 && all_groups(p, n - 1) && ipv4_spec(p[n - 1]) is Some && n + 1 <= limit {
            Some(group_vals(p, n - 1) + v4_groups(ipv4_spec(p[n - 1])->0))
        } else {
            None
        }
    }
}

pub open spec fn is_double_colon(s: Seq<char>, k: int) -> bool {
    0 <= k && k + 1 < s.len() && s[k] == ':' && s[k + 1] == ':'
}

pub open spec fn has_double_colon(s: Seq<char>) -> bool {
    exists|k: int| is_double_colon(s, k)
}

pub open spec fn first_double_colon(s: Seq<char>, k: int) -> bool {
    is_double_colon(s, k) && forall|j: int| 0 <= j < k ==> !is_double_colon(s, j)
}

/// IPv6 text: eight groups, or groups around one `::` standing for at least
/// one zero group; an IPv4 address may end the text after the `::` or as the
/// last two groups of the full form.
pub open spec fn ipv6_spec(s: Seq<char>) -> Option<Seq<u16>> {
    if has_double_colon(s) {
        let k = choose|k: int| first_double_colon(s, k);
        let head = s.subrange(0, k);
        let tail = s.subrange(k + 2, s.len() as int);
        if has_double_colon(tail) {
            None
        } else {
            match groups_spec(head, 7, false) {
                None => None,
                Some(h) => match groups_spec(tail, 7 - h.len(), true) {
                    None => None,
                    Some(t) => Some(h + Seq::new((8 - h.len() - t.len()) as nat, |i: int| 0u16) + t),
                },
            }
        }
    } else {
        match groups_spec(s, 8, true) {
            Some(g) => if g.len() == 8 { Some(g) } else { None },
            None => None,
        }
    }
}


fn digit_value(c: char) -> (r: u32)
    requires
        is_hex(c),
    ensures
        r == digit_val(c),
        r < 16,
        is_digit(c) ==> r < 10,
{
    if '0' <= c && c <= '9' {
        (c as u32) - 48
    } else if 'a' <= c && c <= 'f' {
        (c as u32) - 87
    } else {
        (c as u32) - 55
    }
}

proof fn lemma_radix_step(s: Seq<char>, i: int, radix: nat)
    requires
        0 <= i < s.len(),
    ensures
        radix_val(s.subrange(0, i + 1), radix) == radix_val(s.subrange(0, i), radix) * radix + digit_val(s[i]),
{
    assert(s.subrange(0, i + 1).drop_last() =~= s.subrange(0, i));
}

/// Parses one IPv4 octet text.
fn parse_octet(p: &Vec<char>) -> (r: Option<u8>)
    ensures
        r is Some <==> octet_text(p@),
        r matches Some(v) ==> v == radix_val(p@, 10),
{
    if p.len() < 1 || p.len() > 3 {
        return None;
    }
    if p.len() > 1 && p[0] == '0' {
        return None;
    }
    let mut acc: u32 = 0;
    let mut i: usize = 0;
    while i < p.len()
        invariant
            1 <= p@.len() <= 3,
            i <= p@.len(),
            forall|q: int| 0 <= q < i ==> is_digit(#[trigger] p@[q]),
            acc == radix_val(p@.subrange(0, i as int), 10),
            acc < 1000,
            i == 0 ==> acc == 0,
            i == 1 ==> acc < 10,
            i == 2 ==> acc < 100,
        decreases p@.len() - i,
    {
        let c = p[i];
        if !('0' <= c && c <= '9') {
            assert(!is_digit(p@[i as int]));
            return None;
        }
        let d = digit_value(c);
        proof { lemma_radix_step(p@, i as int, 10); }
        acc = acc * 10 + d;
        i = i + 1;
    }
    assert(p@.subrange(0, p@.len() as int) =~= p@);
    if acc > 255 {
        return None;
    }
    Some(acc as u8)
}

/// Parses one IPv6 group text.
fn parse_group(p: &Vec<char>) -> (r: Option<u16>)
    ensures
        r is Some <==> group_text(p@),
        r matches Some(v) ==> v == radix_val(p@, 16),
{
    if p.len() < 1 || p.len() > 4 {
        return None;
    }
    let mut acc: u32 = 0;
    let mut i: usize = 0;
    while i < p.len()
        invariant
            1 <= p@.len() <= 4,
            i <= p@.len(),
            forall|q: int| 0 <= q < i ==> is_hex(#[trigger] p@[q]),
            acc == radix_val(p@.subrange(0, i as int), 16),
            i == 0 ==> acc == 0,
            i == 1 ==> acc < 16,
            i == 2 ==> acc < 256,
            i == 3 ==> acc < 4096,
            i == 4 ==> acc < 65536,
        decreases p@.len() - i,
    {
        let c = p[i];
        if !(('0' <= c && c <= '9') || ('a' <= c && c <= 'f') || ('A' <= c && c <= 'F')) {
            assert(!is_hex(p@[i as int]));
            return None;
        }
        let d = digit_value(c);
        proof { lemma_radix_step(p@, i as int, 16); }
        acc = acc * 16 + d;
        i = i + 1;
    }
    assert(p@.subrange(0, p@.len() as int) =~= p@);
    Some(acc as u16)
}

/// Parses dotted-quad IPv4 text.
pub fn parse_ipv4(s: &Vec<char>) -> (r: Option<(u8, u8, u8, u8)>)
    ensures
        r == ipv4_spec(s@),
{
    let p = split_chars(s, '.');
    if p.len() != 4 {
        return None;
    }
    assert(p[0]@ == split(s@, '.')[0]);
    assert(p[1]@ == split(s@, '.')[1]);
    assert(p[2]@ == split(s@, '.')[2]);
    assert(p[3]@ == split(s@, '.')[3]);
    match (parse_octet(&p[0]), parse_octet(&p[1]), parse_octet(&p[2]), parse_octet(&p[3])) {
        (Some(a), Some(b), Some(c), Some(d)) => Some((a, b, c, d)),
        _ => None,
    }
}

/// Parses colon-separated groups (see `groups_spec`).
fn parse_groups(t: &Vec<char>, limit: usize, allow_v4: bool) -> (r: Option<Vec<u16>>)
    requires
        limit <= 8,
    ensures
        r matches Some(v) ==> groups_spec(t@, limit as int, allow_v4) == Some(v@),
        r is None ==> groups_spec(t@, limit as int, allow_v4) is None,
{
    if t.len() == 0 {
        let v: Vec<u16> = Vec::new();
        assert(v@ =~= Seq::<u16>::empty());
        return Some(v);
    }
    let p = split_chars(t, ':');
    let ghost ps = split(t@, ':');
    let n = p.len();
    let mut out: Vec<u16> = Vec::new();
    let mut i: usize = 0;
    while i + 1 < n
        invariant
            n == p@.len(),
            n >= 1,
            t@.len() != 0,
            limit <= 8,
            ps == split(t@, ':'),
            ps == view_parts(p@),
            i <= n - 1,
            all_groups(ps, i as int),
            out@ =~= group_vals(ps, i as int),
        decreases n - i,
    {
        assert(p@[i as int]@ == ps[i as int]);
        match parse_group(&p[i]) {
            Some(g) => {
                out.push(g);
                i = i + 1;
                assert(out@ =~= group_vals(ps, i as int));
            },
            None => {
                assert(!all_groups(ps, n as int));
                assert(!all_groups(ps, (n - 1) as int));
                assert(t@.len() != 0);
                assert(ps.len() == n);
                assert(groups_spec(t@, limit as int, allow_v4) is None);
                return None;
            },
        }
    }
    let last = &p[n - 1];
    assert(last@ == ps[n - 1]);
    match parse_group(last) {
        Some(g) => {
            if n > limit {
                proof {
                    if allow_v4 && ipv4_spec(ps[n - 1]) is Some {
                        // a group contains no dot, so it is not an IPv4 address
                        let q = split(ps[n - 1], '.');
                        lemma_split_none(ps[n - 1], '.');
                        assert(q.len() == 1);
                    }
                }
                return None;
            }
            out.push(g);
            assert(out@ =~= group_vals(ps, n as int));
            Some(out)
        },
        None => {
            if !allow_v4 {
                return None;
            }
            match parse_ipv4(last) {
                None => None,
                Some(q) => {
                    if n >= limit {
                        return None;
                    }
                    let ghost before = out@;
                    out.push(((q.0 as u16) * 256 + q.1 as u16) as u16);
                    out.push(((q.2 as u16) * 256 + q.3 as u16) as u16);
                    assert(out@ =~= group_vals(ps, (n - 1) as int) + v4_groups(q));
                    Some(out)
                },
            }
        },
    }
}

fn find_double_colon(s: &Vec<char>) -> (r: Option<usize>)
    ensures
        r matches Some(k) ==> first_double_colon(s@, k as int),
        r is None ==> !has_double_colon(s@),
{
    let mut k: usize = 0;
    if s.len() < 2 {
        assert forall|j: int| !is_double_colon(s@, j) by {}
        return None;
    }
    while k < s.len() - 1
        invariant
            s@.len() >= 2,
            forall|j: int| 0 <= j < k ==> !is_double_colon(s@, j),
        decreases s@.len() - k,
    {
        if s[k] == ':' && s[k + 1] == ':' {
            return Some(k);
        }
        k = k + 1;
    }
    assert forall|j: int| !is_double_colon(s@, j) by {}
    None
}

pub fn slice_chars(s: &Vec<char>, from: usize, to: usize) -> (r: Vec<char>)
    requires
        from <= to <= s@.len(),
    ensures
        r@ == s@.subrange(from as int, to as int),
{
    let mut out: Vec<char> = Vec::new();
    let mut i = from;
    while i < to
        invariant
            from <= i <= to <= s@.len(),
            out@ =~= s@.subrange(from as int, i as int),
        decreases to - i,
    {
        out.push(s[i]);
        i = i + 1;
    }
    out
}

/// Parses IPv6 text into its eight groups.
pub fn parse_ipv6(s: &Vec<char>) -> (r: Option<Vec<u16>>)
    ensures
        r matches Some(v) ==> ipv6_spec(s@) == Some(v@),
        r is None ==> ipv6_spec(s@) is None,
{
    match find_double_colon(s) {
        Some(k) => {
            let ghost kk = choose|kk: int| first_double_colon(s@, kk);
            assert(kk == k as int) by {
                if kk < k { assert(!is_double_colon(s@, kk)); }
                if kk > k { assert(!is_double_colon(s@, k as int)); }
            }
            let sl = s.len();
            assert(k + 1 < sl);
            let head = slice_chars(s, 0, k);
            let tail = slice_chars(s, k + 2, sl);
            if find_double_colon(&tail).is_some() {
                return None;
            }
            let h = match parse_groups(&head, 7, false) {
                Some(h) => h,
                None => return None,
            };
            let t = match parse_groups(&tail, 7 - h.len(), true) {
                Some(t) => t,
                None => return None,
            };
            let mut out: Vec<u16> = Vec::new();
            let mut i: usize = 0;
            while i < h.len()
                invariant
                    i <= h@.len(),
                    out@ =~= h@.subrange(0, i as int),
                decreases h@.len() - i,
            {
                out.push(h[i]);
                i = i + 1;
            }
            let zeros = 8 - h.len() - t.len();
            let mut z: usize = 0;
            while z < zeros
                invariant
                    h@.len() + t@.len() <= 7,
                    zeros == 8 - h@.len() - t@.len(),
                    z <= zeros,
                    out@ =~= h@ + Seq::new(z as nat, |q: int| 0u16),
                decreases zeros - z,
            {
                out.push(0);
                z = z + 1;
            }
            let mut j: usize = 0;
            while j < t.len()
                invariant
                    j <= t@.len(),
                    out@ =~= h@ + Seq::new(zeros as nat, |q: int| 0u16) + t@.subrange(0, j as int),
                decreases t@.len() - j,
            {
                out.push(t[j]);
                j = j + 1;
            }
            assert(t@.subrange(0, t@.len() as int) =~= t@);
            Some(out)
        },
        None => match parse_groups(s, 8, true) {
            Some(g) => if g.len() == 8 { Some(g) } else { None },
            None => None,
        },
    }
}

/// An IP address: four IPv4 octets or eight IPv6 segments.
#[derive(Debug, Clone, Copy, PartialEq, Eq, Structural, Hash, PartialOrd, Ord)]
pub enum IpAddr {
    V4(u8, u8, u8, u8),
    V6(u16, u16, u16, u16, u16, u16, u16, u16),
}

impl IpAddr {
    pub open spec fn is_ipv4_spec(self) -> bool {
        self is V4
    }

    pub fn is_ipv4(&self) -> (r: bool)
        ensures
            r == self.is_ipv4_spec(),
    {
        matches!(self, IpAddr::V4(..))
    }

    pub open spec fn is_unspecified_spec(self) -> bool {
        match self {
            IpAddr::V4(a, b, c, d) => a == 0 && b == 0 && c == 0 && d == 0,
            IpAddr::V6(a, b, c, d, e, f, g, h) => a == 0 && b == 0 && c == 0 && d == 0 && e == 0 && f == 0 && g == 0 && h == 0,
        }
    }

    /// The all-zero address (`0.0.0.0` or `::`).
    pub fn is_unspecified(&self) -> (r: bool)
        ensures
            r == self.is_unspecified_spec(),
    {
        match self {
            IpAddr::V4(a, b, c, d) => *a == 0 && *b == 0 && *c == 0 && *d == 0,
            IpAddr::V6(a, b, c, d, e, f, g, h) => *a == 0 && *b == 0 && *c == 0 && *d == 0 && *e == 0 && *f == 0 && *g == 0 && *h == 0,
        }
    }

    pub open spec fn is_multicast_spec(self) -> bool {
        match self {
            IpAddr::V4(a, _, _, _) => 224 <= a && a <= 239,
            IpAddr::V6(a, _, _, _, _, _, _, _) => a >= 0xff00,
        }
    }

    /// IPv4 `224.0.0.0/4` or IPv6 `ff00::/8`.
    pub fn is_multicast(&self) -> (r: bool)
        ensures
            r == self.is_multicast_spec(),
    {
        match self {
            IpAddr::V4(a, _, _, _) => 224 <= *a && *a <= 239,
            IpAddr::V6(a, _, _, _, _, _, _, _) => *a >= 0xff00,
        }
    }

    pub open spec fn is_ipv4_broadcast_spec(self) -> bool {
        self == IpAddr::V4(255, 255, 255, 255)
    }

    /// The IPv4 limited broadcast address `255.255.255.255`.
    pub fn is_ipv4_broadcast(&self) -> (r: bool)
        ensures
            r == self.is_ipv4_broadcast_spec(),
    {
        match self {
            IpAddr::V4(a, b, c, d) => *a == 255 && *b == 255 && *c == 255 && *d == 255,
            _ => false,
        }
    }

    pub open spec fn width(self) -> u8 {
        if self is V4 { 32 } else { 128 }
    }
}

/// The address that `str::parse::<std::net::IpAddr>` accepts: dotted-quad
/// IPv4 text, else IPv6 text.
pub open spec fn parse_ip_spec(s: Seq<char>) -> Option<IpAddr> {
    match ipv4_spec(s) {
        Some(q) => Some(IpAddr::V4(q.0, q.1, q.2, q.3)),
        None => match ipv6_spec(s) {
            Some(g) => Some(IpAddr::V6(g[0], g[1], g[2], g[3], g[4], g[5], g[6], g[7])),
            None => None,
        },
    }
}

pub fn parse_ip_chars(s: &Vec<char>) -> (r: Option<IpAddr>)
    ensures
        r == parse_ip_spec(s@),
{
    match parse_ipv4(s) {
        Some(q) => Some(IpAddr::V4(q.0, q.1, q.2, q.3)),
        None => match parse_ipv6(s) {
            Some(g) => {
                if g.len() != 8 {
                    return None;
                }
                Some(IpAddr::V6(g[0], g[1], g[2], g[3], g[4], g[5], g[6], g[7]))
            },
            None => None,
        },
    }
}

/// Parses textual IPv4 or IPv6 addresses.
pub fn parse_ip(s: &str) -> (r: Option<IpAddr>)
    ensures
        r == parse_ip_spec(s@),
{
    let v = crate::text::chars_of(s);
    parse_ip_chars(&v)
}

} // verus!

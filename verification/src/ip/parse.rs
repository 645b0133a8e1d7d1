//! Textual IP addresses: the address value types and verified parsers for
//! the dotted-quad IPv4 form and the RFC 4291 IPv6 forms (full groups,
//! `::` compression, and an embedded dotted-quad tail).

use vstd::prelude::*;

use crate::text::{digit_val, hex_digit_val, is_digit, is_digit_char, is_hex_digit,
    is_hex_digit_char};

verus! {

/// An IPv4 address: four octets in network order.
#[derive(Clone, Copy, Debug, PartialEq, Eq, Structural)]
pub struct Ipv4Address {
    pub a: u8,
    pub b: u8,
    pub c: u8,
    pub d: u8,
}

/// An IPv6 address: eight 16-bit groups in network order.
#[derive(Clone, Copy, Debug, PartialEq, Eq, Structural)]
pub struct Ipv6Address {
    pub s0: u16,
    pub s1: u16,
    pub s2: u16,
    pub s3: u16,
    pub s4: u16,
    pub s5: u16,
    pub s6: u16,
    pub s7: u16,
}

/// An address of either family.
#[derive(Clone, Copy, Debug, PartialEq, Eq, Structural)]
pub enum IpAddress {
    V4(Ipv4Address),
    V6(Ipv6Address),
}

/// High 16-bit group of the four octets (first two octets).
pub open spec fn v4_hi(a: Ipv4Address) -> u16 {
    (a.a as u16 * 256 + a.b as u16) as u16
}

/// Low 16-bit group of the four octets (last two octets).
pub open spec fn v4_lo(a: Ipv4Address) -> u16 {
    (a.c as u16 * 256 + a.d as u16) as u16
}

/// The IPv4 address held in the last two groups of an IPv6 address.
pub open spec fn embedded_ipv4(ip: Ipv6Address) -> Ipv4Address {
    Ipv4Address {
        a: (ip.s6 / 256) as u8,
        b: (ip.s6 % 256) as u8,
        c: (ip.s7 / 256) as u8,
        d: (ip.s7 % 256) as u8,
    }
}

/// The IPv4-mapped IPv6 form `::ffff:a.b.c.d` of an IPv4 address.
pub open spec fn ipv4_mapped(a: Ipv4Address) -> Ipv6Address {
    Ipv6Address {
        s0: 0,
        s1: 0,
        s2: 0,
        s3: 0,
        s4: 0,
        s5: 0xffff,
        s6: v4_hi(a),
        s7: v4_lo(a),
    }
}

/// End of the run of decimal digits that starts at `i`.
pub open spec fn digit_run_end(s: Seq<char>, i: int) -> int
    decreases s.len() - i when 0 <= i <= s.len()
{
    if i >= s.len() || !is_digit_char(s[i]) {
        i
    } else {
        digit_run_end(s, i + 1)
    }
}

/// End of the run of hexadecimal digits that starts at `i`.
pub open spec fn hex_run_end(s: Seq<char>, i: int) -> int
    decreases s.len() - i when 0 <= i <= s.len()
{
    if i >= s.len() || !is_hex_digit_char(s[i]) {
        i
    } else {
        hex_run_end(s, i + 1)
    }
}

/// Value of the decimal digits in `s[i..j]`.
pub open spec fn dec_value(s: Seq<char>, i: int, j: int) -> int
    decreases j - i when 0 <= i <= j <= s.len()
{
    if j <= i {
        0
    } else {
        dec_value(s, i, j - 1) * 10 + digit_val(s[j - 1])
    }
}

/// Value of the hexadecimal digits in `s[i..j]`.
pub open spec fn hex_value(s: Seq<char>, i: int, j: int) -> int
    decreases j - i when 0 <= i <= j <= s.len()
{
    if j <= i {
        0
    } else {
        hex_value(s, i, j - 1) * 16 + hex_digit_val(s[j - 1])
    }
}

proof fn lemma_digit_run_end(s: Seq<char>, i: int)
    requires
        0 <= i <= s.len(),
    ensures
        i <= digit_run_end(s, i) <= s.len(),
        forall|k: int| i <= k < digit_run_end(s, i) ==> is_digit_char(s[k]),
        digit_run_end(s, i) == s.len() || !is_digit_char(s[digit_run_end(s, i)]),
    decreases s.len() - i,
{
    if i < s.len() && is_digit_char(s[i]) {
        lemma_digit_run_end(s, i + 1);
    }
}

proof fn lemma_hex_run_end(s: Seq<char>, i: int)
    requires
        0 <= i <= s.len(),
    ensures
        i <= hex_run_end(s, i) <= s.len(),
        forall|k: int| i <= k < hex_run_end(s, i) ==> is_hex_digit_char(s[k]),
        hex_run_end(s, i) == s.len() || !is_hex_digit_char(s[hex_run_end(s, i)]),
    decreases s.len() - i,
{
    if i < s.len() && is_hex_digit_char(s[i]) {
        lemma_hex_run_end(s, i + 1);
    }
}

/// One dotted-quad octet read at `i`: all consecutive digits, at most three
/// of them, no leading zero, value at most 255. Yields the value and the
/// index after the digits.
pub open spec fn spec_scan_octet(s: Seq<char>, i: int) -> Option<(u8, int)>
    recommends
        0 <= i <= s.len(),
{
    let j = digit_run_end(s, i);
    if j == i {
        None
    } else if j - i > 3 {
        None
    } else if j - i > 1 && s[i] == '0' {
        None
    } else if dec_value(s, i, j) > 255 {
        None
    } else {
        Some((dec_value(s, i, j) as u8, j))
    }
}

/// A dotted-quad IPv4 address read at `i`: four octets separated by `'.'`.
/// Yields the address and the index after the last octet.
pub open spec fn spec_scan_ipv4(s: Seq<char>, i: int) -> Option<(Ipv4Address, int)>
    recommends
        0 <= i <= s.len(),
{
    match spec_scan_octet(s, i) {
        None => None,
        Some((o0, i1)) => if i1 < s.len() && s[i1] == '.' {
            match spec_scan_octet(s, i1 + 1) {
                None => None,
                Some((o1, i2)) => if i2 < s.len() && s[i2] == '.' {
                    match spec_scan_octet(s, i2 + 1) {
                        None => None,
                        Some((o2, i3)) => if i3 < s.len() && s[i3] == '.' {
                            match spec_scan_octet(s, i3 + 1) {
                                None => None,
                                Some((o3, i4)) => Some(
                                    (Ipv4Address { a: o0, b: o1, c: o2, d: o3 }, i4),
                                ),
                            }
                        } else {
                            None
                        },
                    }
                } else {
                    None
                },
            }
        } else {
            None
        },
    }
}

/// The whole input as a dotted-quad IPv4 address.
pub open spec fn spec_parse_ipv4(s: Seq<char>) -> Option<Ipv4Address> {
    match spec_scan_ipv4(s, 0) {
        Some((a, j)) => if j == s.len() {
            Some(a)
        } else {
            None
        },
        None => None,
    }
}

proof fn lemma_scan_octet_bounds(s: Seq<char>, i: int)
    requires
        0 <= i <= s.len(),
    ensures
        spec_scan_octet(s, i) matches Some(p) ==> i < p.1 <= s.len(),
{
    lemma_digit_run_end(s, i);
}

proof fn lemma_scan_ipv4_bounds(s: Seq<char>, i: int)
    requires
        0 <= i <= s.len(),
    ensures
        spec_scan_ipv4(s, i) matches Some(p) ==> i < p.1 <= s.len(),
{
    lemma_scan_octet_bounds(s, i);
    match spec_scan_octet(s, i) {
        None => {},
        Some((o0, i1)) => {
            if i1 < s.len() && s[i1] == '.' {
                lemma_scan_octet_bounds(s, i1 + 1);
                match spec_scan_octet(s, i1 + 1) {
                    None => {},
                    Some((o1, i2)) => {
                        if i2 < s.len() && s[i2] == '.' {
                            lemma_scan_octet_bounds(s, i2 + 1);
                            match spec_scan_octet(s, i2 + 1) {
                                None => {},
                                Some((o2, i3)) => {
                                    if i3 < s.len() && s[i3] == '.' {
                                        lemma_scan_octet_bounds(s, i3 + 1);
                                    }
                                },
                            }
                        }
                    },
                }
            }
        },
    }
}

fn digit_run_end_exec(v: &Vec<char>, i: usize) -> (j: usize)
    requires
        i <= v@.len(),
    ensures
        j as int == digit_run_end(v@, i as int),
        i <= j <= v@.len(),
{
    let mut j = i;
    while j < v.len() && is_digit(v[j])
        invariant
            i <= j <= v@.len(),
            digit_run_end(v@, i as int) == digit_run_end(v@, j as int),
        decreases v@.len() - j,
    {
        j = j + 1;
    }
    proof {
        lemma_digit_run_end(v@, i as int);
    }
    j
}

fn hex_run_end_exec(v: &Vec<char>, i: usize) -> (j: usize)
    requires
        i <= v@.len(),
    ensures
        j as int == hex_run_end(v@, i as int),
        i <= j <= v@.len(),
{
    let mut j = i;
    while j < v.len() && is_hex_digit(v[j])
        invariant
            i <= j <= v@.len(),
            hex_run_end(v@, i as int) == hex_run_end(v@, j as int),
        decreases v@.len() - j,
    {
        j = j + 1;
    }
    proof {
        lemma_hex_run_end(v@, i as int);
    }
    j
}

fn scan_octet(v: &Vec<char>, i: usize) -> (r: Option<(u8, usize)>)
    requires
        i <= v@.len(),
    ensures
        match r {
            Some(p) => spec_scan_octet(v@, i as int) == Some((p.0, p.1 as int)) && i < p.1
                <= v@.len(),
            None => spec_scan_octet(v@, i as int) is None,
        },
{
    proof {
        lemma_digit_run_end(v@, i as int);
    }
    let j = digit_run_end_exec(v, i);
    if j == i {
        return None;
    }
    if j - i > 3 {
        return None;
    }
    if j - i > 1 && v[i] == '0' {
        return None;
    }
    let mut val: u32 = 0;
    let mut k = i;
    while k < j
        invariant
            i <= k <= j <= v@.len(),
            j as int == digit_run_end(v@, i as int),
            forall|m: int| i <= m < j ==> is_digit_char(v@[m]),
            j - i <= 3,
            val as int == dec_value(v@, i as int, k as int),
            k == i ==> val == 0,
            k - i == 1 ==> val < 10,
            k - i == 2 ==> val < 100,
            k - i == 3 ==> val < 1000,
        decreases j - k,
    {
        let d = (v[k] as u32) - 48;
        val = val * 10 + d;
        k = k + 1;
    }
    if val > 255 {
        return None;
    }
    Some((val as u8, j))
}

fn scan_ipv4(v: &Vec<char>, i: usize) -> (r: Option<(Ipv4Address, usize)>)
    requires
        i <= v@.len(),
    ensures
        match r {
            Some(p) => spec_scan_ipv4(v@, i as int) == Some((p.0, p.1 as int)) && i < p.1
                <= v@.len(),
            None => spec_scan_ipv4(v@, i as int) is None,
        },
{
    let o0 = match scan_octet(v, i) {
        None => {
            return None;
        },
        Some(p) => p,
    };
    if !(o0.1 < v.len() && v[o0.1] == '.') {
        return None;
    }
    let o1 = match scan_octet(v, o0.1 + 1) {
        None => {
            return None;
        },
        Some(p) => p,
    };
    if !(o1.1 < v.len() && v[o1.1] == '.') {
        return None;
    }
    let o2 = match scan_octet(v, o1.1 + 1) {
        None => {
            return None;
        },
        Some(p) => p,
    };
    if !(o2.1 < v.len() && v[o2.1] == '.') {
        return None;
    }
    let o3 = match scan_octet(v, o2.1 + 1) {
        None => {
            return None;
        },
        Some(p) => p,
    };
    Some((Ipv4Address { a: o0.0, b: o1.0, c: o2.0, d: o3.0 }, o3.1))
}

/// Parses the whole character sequence as a dotted-quad IPv4 address.
pub fn parse_ipv4(v: &Vec<char>) -> (r: Option<Ipv4Address>)
    ensures
        r == spec_parse_ipv4(v@),
{
    match scan_ipv4(v, 0) {
        Some(p) => if p.1 == v.len() {
            Some(p.0)
        } else {
            None
        },
        None => None,
    }
}

/// A run of characters forming one dotted-quad octet: one to three
/// digits, no leading zero, value at most 255.
pub open spec fn is_octet_text(t: Seq<char>) -> bool {
    &&& 1 <= t.len() <= 3
    &&& forall|m: int| 0 <= m < t.len() ==> is_digit_char(t[m])
    &&& t.len() > 1 ==> t[0] != '0'
    &&& dec_value(t, 0, t.len() as int) <= 255
}

/// The shape of a dotted-quad text: dots at `i`, `j` and `k`, with an
/// octet text between consecutive dots and at both ends.
pub open spec fn ipv4_quad_split(s: Seq<char>, i: int, j: int, k: int) -> bool {
    &&& 0 < i && i + 1 < j && j + 1 < k && k + 1 < s.len()
    &&& s[i] == '.' && s[j] == '.' && s[k] == '.'
    &&& is_octet_text(s.subrange(0, i))
    &&& is_octet_text(s.subrange(i + 1, j))
    &&& is_octet_text(s.subrange(j + 1, k))
    &&& is_octet_text(s.subrange(k + 1, s.len() as int))
}

proof fn lemma_dec_value_in_subrange(s: Seq<char>, a: int, b: int, i: int, j: int)
    requires
        0 <= a <= i <= j <= b <= s.len(),
    ensures
        dec_value(s.subrange(a, b), i - a, j - a) == dec_value(s, i, j),
    decreases j - i,
{
    if i < j {
        lemma_dec_value_in_subrange(s, a, b, i, j - 1);
        assert(s.subrange(a, b)[j - 1 - a] == s[j - 1]);
    }
}

proof fn lemma_digit_run_end_at(s: Seq<char>, a: int, b: int)
    requires
        0 <= a <= b <= s.len(),
        forall|m: int| a <= m < b ==> is_digit_char(s[m]),
        b == s.len() || !is_digit_char(s[b]),
    ensures
        digit_run_end(s, a) == b,
    decreases b - a,
{
    if a < b {
        lemma_digit_run_end_at(s, a + 1, b);
    }
}

proof fn lemma_octet_at(s: Seq<char>, a: int, b: int)
    requires
        0 <= a <= b <= s.len(),
        is_octet_text(s.subrange(a, b)),
        b == s.len() || !is_digit_char(s[b]),
    ensures
        spec_scan_octet(s, a) == Some((dec_value(s, a, b) as u8, b)),
        dec_value(s, a, b) <= 255,
{
    let t = s.subrange(a, b);
    assert forall|m: int| a <= m < b implies is_digit_char(s[m]) by {
        assert(s[m] == t[m - a]);
    }
    lemma_digit_run_end_at(s, a, b);
    lemma_dec_value_in_subrange(s, a, b, a, b);
    assert(s[a] == t[0]);
}

/// Completeness of the dotted-quad grammar: a text of the quad shape
/// parses, and yields exactly the octet values written in it.
pub proof fn lemma_parse_ipv4_complete(s: Seq<char>, i: int, j: int, k: int)
    requires
        ipv4_quad_split(s, i, j, k),
    ensures
        spec_parse_ipv4(s) == Some(
            Ipv4Address {
                a: dec_value(s, 0, i) as u8,
                b: dec_value(s, i + 1, j) as u8,
                c: dec_value(s, j + 1, k) as u8,
                d: dec_value(s, k + 1, s.len() as int) as u8,
            },
        ),
{
    let n = s.len() as int;
    assert(!is_digit_char('.'));
    lemma_octet_at(s, 0, i);
    lemma_octet_at(s, i + 1, j);
    lemma_octet_at(s, j + 1, k);
    lemma_octet_at(s, k + 1, n);
}

/// Soundness of the dotted-quad grammar: whatever parses as an IPv4
/// address has the quad shape.
pub proof fn lemma_parse_ipv4_sound(s: Seq<char>)
    requires
        spec_parse_ipv4(s) is Some,
    ensures
        exists|i: int, j: int, k: int| ipv4_quad_split(s, i, j, k),
{
    let n = s.len() as int;
    lemma_digit_run_end(s, 0);
    let i = digit_run_end(s, 0);
    lemma_digit_run_end(s, i + 1);
    let j = digit_run_end(s, i + 1);
    lemma_digit_run_end(s, j + 1);
    let k = digit_run_end(s, j + 1);
    lemma_digit_run_end(s, k + 1);
    lemma_octet_text_from_run(s, 0, i);
    lemma_octet_text_from_run(s, i + 1, j);
    lemma_octet_text_from_run(s, j + 1, k);
    lemma_octet_text_from_run(s, k + 1, n);
    assert(ipv4_quad_split(s, i, j, k));
}

proof fn lemma_octet_text_from_run(s: Seq<char>, a: int, b: int)
    requires
        0 <= a <= b <= s.len(),
        b == digit_run_end(s, a),
        1 <= b - a <= 3,
        b - a > 1 ==> s[a] != '0',
        dec_value(s, a, b) <= 255,
    ensures
        is_octet_text(s.subrange(a, b)),
{
    lemma_digit_run_end(s, a);
    lemma_dec_value_in_subrange(s, a, b, a, b);
    let t = s.subrange(a, b);
    assert forall|m: int| 0 <= m < t.len() implies is_digit_char(t[m]) by {
        assert(t[m] == s[a + m]);
    }
    assert(t[0] == s[a]);
}

/// One 16-bit group read at `i`: all consecutive hexadecimal digits, at most
/// four of them (leading zeros allowed). Yields the value and the index
/// after the digits.
pub open spec fn spec_scan_group(s: Seq<char>, i: int) -> Option<(u16, int)>
    recommends
        0 <= i <= s.len(),
{
    let j = hex_run_end(s, i);
    if j == i {
        None
    } else if j - i > 4 {
        None
    } else {
        Some((hex_value(s, i, j) as u16, j))
    }
}

/// A run of groups read at `i`, at most `remaining` of them. Groups after
/// the first are preceded by a single `':'`. At each step with two or more
/// group slots left, an embedded dotted-quad IPv4 address is tried first; it
/// fills two groups and ends the run. The run also ends where no further
/// group can be read. Yields the groups, the index after them, and whether
/// the run ended in an embedded IPv4 address.
pub open spec fn spec_read_groups(s: Seq<char>, i: int, remaining: nat, first: bool) -> (Seq<
    u16,
>, int, bool)
    recommends
        0 <= i <= s.len(),
    decreases remaining,
{
    if remaining == 0 {
        (Seq::empty(), i, false)
    } else if !first && !(i < s.len() && s[i] == ':') {
        (Seq::empty(), i, false)
    } else {
        let p = if first {
            i
        } else {
            i + 1
        };
        if remaining >= 2 && spec_scan_ipv4(s, p) is Some {
            let q = spec_scan_ipv4(s, p)->Some_0;
            (seq![v4_hi(q.0), v4_lo(q.0)], q.1, true)
        } else {
            match spec_scan_group(s, p) {
                None => (Seq::empty(), i, false),
                Some(g) => {
                    let rest = spec_read_groups(s, g.1, (remaining - 1) as nat, false);
                    (seq![g.0] + rest.0, rest.1, rest.2)
                },
            }
        }
    }
}

/// Group `k` of the eight groups formed by `head`, zeros, then `tail`.
pub open spec fn seg_at(head: Seq<u16>, tail: Seq<u16>, k: int) -> u16
    recommends
        head.len() + tail.len() <= 8,
        0 <= k < 8,
{
    if k < head.len() {
        head[k]
    } else if k >= 8 - tail.len() {
        tail[k - (8 - tail.len())]
    } else {
        0
    }
}

/// The address whose groups are `head`, then zeros, then `tail`.
pub open spec fn groups_to_ipv6(head: Seq<u16>, tail: Seq<u16>) -> Ipv6Address {
    Ipv6Address {
        s0: seg_at(head, tail, 0),
        s1: seg_at(head, tail, 1),
        s2: seg_at(head, tail, 2),
        s3: seg_at(head, tail, 3),
        s4: seg_at(head, tail, 4),
        s5: seg_at(head, tail, 5),
        s6: seg_at(head, tail, 6),
        s7: seg_at(head, tail, 7),
    }
}

/// The whole input as an IPv6 address: either eight groups, or fewer groups
/// around one `"::"` that stands for at least one zero group; the last two
/// groups may be written as an embedded dotted-quad IPv4 address. An
/// embedded IPv4 address before the `"::"` is rejected.
pub open spec fn spec_parse_ipv6(s: Seq<char>) -> Option<Ipv6Address> {
    let h = spec_read_groups(s, 0, 8, true);
    if h.0.len() == 8 {
        if h.1 == s.len() {
            Some(groups_to_ipv6(h.0, Seq::empty()))
        } else {
            None
        }
    } else if h.2 {
        None
    } else if h.1 + 1 < s.len() && s[h.1] == ':' && s[h.1 + 1] == ':' {
        let t = spec_read_groups(s, h.1 + 2, (7 - h.0.len()) as nat, true);
        if t.1 == s.len() {
            Some(groups_to_ipv6(h.0, t.0))
        } else {
            None
        }
    } else {
        None
    }
}

proof fn lemma_scan_group_bounds(s: Seq<char>, i: int)
    requires
        0 <= i <= s.len(),
    ensures
        spec_scan_group(s, i) matches Some(p) ==> i < p.1 <= s.len(),
{
    lemma_hex_run_end(s, i);
}

proof fn lemma_read_groups_bounds(s: Seq<char>, i: int, remaining: nat, first: bool)
    requires
        0 <= i <= s.len(),
    ensures
        ({
            let r = spec_read_groups(s, i, remaining, first);
            i <= r.1 <= s.len() && r.0.len() <= remaining
        }),
    decreases remaining,
{
    if remaining == 0 {
    } else if !first && !(i < s.len() && s[i] == ':') {
    } else {
        let p = if first {
            i
        } else {
            i + 1
        };
        if remaining >= 2 && spec_scan_ipv4(s, p) is Some {
            lemma_scan_ipv4_bounds(s, p);
        } else {
            match spec_scan_group(s, p) {
                None => {},
                Some(g) => {
                    lemma_scan_group_bounds(s, p);
                    lemma_read_groups_bounds(s, g.1, (remaining - 1) as nat, false);
                },
            }
        }
    }
}

fn scan_group(v: &Vec<char>, i: usize) -> (r: Option<(u16, usize)>)
    requires
        i <= v@.len(),
    ensures
        match r {
            Some(p) => spec_scan_group(v@, i as int) == Some((p.0, p.1 as int)) && i < p.1
                <= v@.len(),
            None => spec_scan_group(v@, i as int) is None,
        },
{
    proof {
        lemma_hex_run_end(v@, i as int);
    }
    let j = hex_run_end_exec(v, i);
    if j == i {
        return None;
    }
    if j - i > 4 {
        return None;
    }
    let mut val: u32 = 0;
    let mut k = i;
    while k < j
        invariant
            i <= k <= j <= v@.len(),
            j as int == hex_run_end(v@, i as int),
            forall|m: int| i <= m < j ==> is_hex_digit_char(v@[m]),
            j - i <= 4,
            val as int == hex_value(v@, i as int, k as int),
            k == i ==> val == 0,
            k - i == 1 ==> val < 16,
            k - i == 2 ==> val < 256,
            k - i == 3 ==> val < 4096,
            k - i == 4 ==> val < 65536,
        decreases j - k,
    {
        let u = v[k] as u32;
        let d: u32 = if 48 <= u && u <= 57 {
            u - 48
        } else if 97 <= u {
            u - 87
        } else {
            u - 55
        };
        val = val * 16 + d;
        k = k + 1;
    }
    Some((val as u16, j))
}

fn read_groups(v: &Vec<char>, i: usize, remaining: u8, first: bool) -> (r: (Vec<u16>, usize, bool))
    requires
        i <= v@.len(),
        remaining <= 8,
    ensures
        ({
            let sp = spec_read_groups(v@, i as int, remaining as nat, first);
            r.0@ == sp.0 && r.1 as int == sp.1 && r.2 == sp.2 && i <= r.1 <= v@.len()
                && r.0@.len() <= remaining as nat
        }),
    decreases remaining,
{
    if remaining == 0 {
        return (Vec::new(), i, false);
    }
    if !first && !(i < v.len() && v[i] == ':') {
        return (Vec::new(), i, false);
    }
    let p = if first {
        i
    } else {
        i + 1
    };
    if remaining >= 2 {
        match scan_ipv4(v, p) {
            Some(q) => {
                let hi = (q.0.a as u16) * 256 + (q.0.b as u16);
                let lo = (q.0.c as u16) * 256 + (q.0.d as u16);
                let mut g: Vec<u16> = Vec::new();
                g.push(hi);
                g.push(lo);
                proof {
                    assert(g@ =~= seq![v4_hi(q.0), v4_lo(q.0)]);
                }
                return (g, q.1, true);
            },
            None => {},
        }
    }
    match scan_group(v, p) {
        None => (Vec::new(), i, false),
        Some(g) => {
            let (rest_g, rest_i, rest_v4) = read_groups(v, g.1, remaining - 1, false);
            let mut out: Vec<u16> = Vec::new();
            out.push(g.0);
            let mut rest_m = rest_g;
            out.append(&mut rest_m);
            proof {
                assert(out@ =~= seq![g.0] + spec_read_groups(
                    v@,
                    g.1 as int,
                    (remaining - 1) as nat,
                    false,
                ).0);
            }
            (out, rest_i, rest_v4)
        },
    }
}

fn seg_of(head: &Vec<u16>, tail: &Vec<u16>, k: usize) -> (r: u16)
    requires
        k < 8,
        head@.len() + tail@.len() <= 8,
    ensures
        r == seg_at(head@, tail@, k as int),
{
    if k < head.len() {
        head[k]
    } else if k >= 8 - tail.len() {
        tail[k - (8 - tail.len())]
    } else {
        0
    }
}

/// Parses the whole character sequence as a textual IPv6 address.
pub fn parse_ipv6(v: &Vec<char>) -> (r: Option<Ipv6Address>)
    ensures
        r == spec_parse_ipv6(v@),
{
    let (head, i, head_v4) = read_groups(v, 0, 8, true);
    if head.len() == 8 {
        if i == v.len() {
            let empty: Vec<u16> = Vec::new();
            return Some(
                Ipv6Address {
                    s0: seg_of(&head, &empty, 0),
                    s1: seg_of(&head, &empty, 1),
                    s2: seg_of(&head, &empty, 2),
                    s3: seg_of(&head, &empty, 3),
                    s4: seg_of(&head, &empty, 4),
                    s5: seg_of(&head, &empty, 5),
                    s6: seg_of(&head, &empty, 6),
                    s7: seg_of(&head, &empty, 7),
                },
            );
        } else {
            return None;
        }
    }
    if head_v4 {
        return None;
    }
    if i < v.len() && i + 1 < v.len() && v[i] == ':' && v[i + 1] == ':' {
        let rem: u8 = 7 - (head.len() as u8);
        let (tail, j, _tail_v4) = read_groups(v, i + 2, rem, true);
        if j == v.len() {
            return Some(
                Ipv6Address {
                    s0: seg_of(&head, &tail, 0),
                    s1: seg_of(&head, &tail, 1),
                    s2: seg_of(&head, &tail, 2),
                    s3: seg_of(&head, &tail, 3),
                    s4: seg_of(&head, &tail, 4),
                    s5: seg_of(&head, &tail, 5),
                    s6: seg_of(&head, &tail, 6),
                    s7: seg_of(&head, &tail, 7),
                },
            );
        } else {
            return None;
        }
    }
    None
}

} // verus!

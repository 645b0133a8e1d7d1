//! Character-level helpers shared by the address parser and the input
//! validators: ASCII whitespace trimming and digit classification.

use vstd::prelude::*;
use vstd::string::StringExecFns;

verus! {

/// ASCII whitespace: space, tab, line feed, form feed, carriage return.
pub open spec fn is_space_char(c: char) -> bool {
    c == ' ' || c == '\t' || c == '\n' || c == '\r' || c == '\u{c}'
}

/// ASCII decimal digit `'0'..='9'`.
pub open spec fn is_digit_char(c: char) -> bool {
    48 <= c as u32 <= 57
}

/// Numeric value of an ASCII decimal digit.
pub open spec fn digit_val(c: char) -> int
    recommends
        is_digit_char(c),
{
    c as u32 - 48
}

/// ASCII hexadecimal digit, either case.
pub open spec fn is_hex_digit_char(c: char) -> bool {
    is_digit_char(c) || 97 <= c as u32 <= 102 || 65 <= c as u32 <= 70
}

/// Numeric value of an ASCII hexadecimal digit.
pub open spec fn hex_digit_val(c: char) -> int
    recommends
        is_hex_digit_char(c),
{
    if is_digit_char(c) {
        c as u32 - 48
    } else if 97 <= c as u32 {
        c as u32 - 87
    } else {
        c as u32 - 55
    }
}

/// Index of the first non-whitespace character at or after `i`, or `s.len()`.
pub open spec fn spec_first_non_space(s: Seq<char>, i: int) -> int
    decreases s.len() - i when 0 <= i <= s.len()
{
    if i >= s.len() {
        i
    } else if !is_space_char(s[i]) {
        i
    } else {
        spec_first_non_space(s, i + 1)
    }
}

/// End (exclusive) of the content once trailing whitespace before `i` is
/// dropped: the least index `j <= i` with only whitespace in `j..i`.
pub open spec fn spec_last_non_space(s: Seq<char>, i: int) -> int
    decreases i when 0 <= i <= s.len()
{
    if i <= 0 {
        0
    } else if !is_space_char(s[i - 1]) {
        i
    } else {
        spec_last_non_space(s, i - 1)
    }
}

/// The input with leading and trailing ASCII whitespace removed.
pub open spec fn spec_trim(s: Seq<char>) -> Seq<char> {
    let a = spec_first_non_space(s, 0);
    let b = spec_last_non_space(s, s.len() as int);
    if a < b {
        s.subrange(a, b)
    } else {
        Seq::empty()
    }
}

proof fn lemma_first_non_space_at(s: Seq<char>, i: int, j: int)
    requires
        0 <= i <= j <= s.len(),
        forall|k: int| i <= k < j ==> is_space_char(s[k]),
        j == s.len() || !is_space_char(s[j]),
    ensures
        spec_first_non_space(s, i) == j,
    decreases j - i,
{
    if i < j {
        lemma_first_non_space_at(s, i + 1, j);
    }
}

proof fn lemma_last_non_space_at(s: Seq<char>, i: int, j: int)
    requires
        0 <= j <= i <= s.len(),
        forall|k: int| j <= k < i ==> is_space_char(s[k]),
        j == 0 || !is_space_char(s[j - 1]),
    ensures
        spec_last_non_space(s, i) == j,
    decreases i - j,
{
    if j < i {
        lemma_last_non_space_at(s, i - 1, j);
    }
}

fn is_space(c: char) -> (r: bool)
    ensures
        r == is_space_char(c),
{
    c == ' ' || c == '\t' || c == '\n' || c == '\r' || c == '\u{c}'
}

pub fn is_digit(c: char) -> (r: bool)
    ensures
        r == is_digit_char(c),
{
    let u = c as u32;
    48 <= u && u <= 57
}

pub fn is_hex_digit(c: char) -> (r: bool)
    ensures
        r == is_hex_digit_char(c),
{
    let u = c as u32;
    (48 <= u && u <= 57) || (97 <= u && u <= 102) || (65 <= u && u <= 70)
}

/// Slice of the input with leading and trailing ASCII whitespace removed.
pub fn trim_str(s: &str) -> (r: &str)
    ensures
        r@ == spec_trim(s@),
{
    let n = s.unicode_len();
    let mut a: usize = 0;
    while a < n && is_space(s.get_char(a))
        invariant
            0 <= a <= n == s@.len(),
            forall|k: int| 0 <= k < a ==> is_space_char(s@[k]),
        decreases n - a,
    {
        a = a + 1;
    }
    proof {
        lemma_first_non_space_at(s@, 0, a as int);
    }
    let mut b: usize = n;
    while b > 0 && is_space(s.get_char(b - 1))
        invariant
            0 <= b <= n == s@.len(),
            forall|k: int| b <= k < n ==> is_space_char(s@[k]),
        decreases b,
    {
        b = b - 1;
    }
    proof {
        lemma_last_non_space_at(s@, n as int, b as int);
    }
    if a < b {
        s.substring_char(a, b)
    } else {
        let empty = "";
        proof {
            reveal_strlit("");
            assert(empty@ =~= Seq::<char>::empty());
        }
        empty
    }
}

/// Start of the last line within `s[0..e]`: the index after the last
/// `'\n'` before `e`, or `0`.
pub open spec fn last_line_start(s: Seq<char>, e: int) -> int
    decreases e when 0 <= e <= s.len()
{
    if e <= 0 {
        0
    } else if s[e - 1] == '\n' {
        e
    } else {
        last_line_start(s, e - 1)
    }
}

/// The last line of the input, as line-splitting sees it: a trailing line
/// break (`"\n"` or `"\r\n"`) ends the last line rather than opening an
/// empty one.
pub open spec fn spec_last_line(s: Seq<char>) -> Seq<char> {
    let e = if s.len() > 0 && s.last() == '\n' {
        s.len() - 1
    } else {
        s.len() as int
    };
    let a = last_line_start(s, e);
    let line = s.subrange(a, e);
    if e < s.len() && line.len() > 0 && line.last() == '\r' {
        line.drop_last()
    } else {
        line
    }
}

proof fn lemma_last_line_start_at(s: Seq<char>, e: int, j: int)
    requires
        0 <= j <= e <= s.len(),
        forall|k: int| j <= k < e ==> s[k] != '\n',
        j == 0 || s[j - 1] == '\n',
    ensures
        last_line_start(s, e) == j,
    decreases e - j,
{
    if j < e {
        lemma_last_line_start_at(s, e - 1, j);
    }
}

/// The last line of the input, or nothing when the input is empty.
pub fn last_line(s: &str) -> (r: Option<String>)
    ensures
        match r {
            Some(l) => s@.len() > 0 && l@ == spec_last_line(s@),
            None => s@.len() == 0,
        },
{
    let n = s.unicode_len();
    if n == 0 {
        return None;
    }
    let e = if s.get_char(n - 1) == '\n' {
        n - 1
    } else {
        n
    };
    let mut j = e;
    while j > 0 && !(s.get_char(j - 1) == '\n')
        invariant
            0 <= j <= e <= n == s@.len(),
            forall|k: int| j <= k < e ==> s@[k] != '\n',
        decreases j,
    {
        j = j - 1;
    }
    proof {
        lemma_last_line_start_at(s@, e as int, j as int);
    }
    let end = if e < n && e > j && s.get_char(e - 1) == '\r' {
        e - 1
    } else {
        e
    };
    proof {
        let line = s@.subrange(j as int, e as int);
        if (e as int) < s@.len() && line.len() > 0 && line.last() == '\r' {
            assert(line.drop_last() =~= s@.subrange(j as int, e - 1 as int));
        }
    }
    let sub = s.substring_char(j, end);
    Some(String::from_str(sub))
}

/// The characters of the input, as a vector.
pub fn chars_of(s: &str) -> (r: Vec<char>)
    ensures
        r@ == s@,
{
    let n = s.unicode_len();
    let mut out: Vec<char> = Vec::new();
    let mut i: usize = 0;
    while i < n
        invariant
            0 <= i <= n == s@.len(),
            out@ == s@.subrange(0, i as int),
        decreases n - i,
    {
        out.push(s.get_char(i));
        proof {
            assert(s@.subrange(0, i + 1 as int) =~= s@.subrange(0, i as int).push(s@[i as int]));
        }
        i = i + 1;
    }
    proof {
        assert(s@.subrange(0, n as int) =~= s@);
    }
    out
}

} // verus!

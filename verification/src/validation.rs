//! Validation of the two accepted means of authentication: an e-mail
//! address or a phone number. Pattern matching is delegated to the regex
//! crate behind trusted wrappers; the checks around the patterns — domain
//! shape, digit count, country code — are verified here.

use vstd::prelude::*;

use crate::text::{chars_of, digit_val, is_digit, is_digit_char, spec_trim, trim_str};

verus! {

/// What `str::to_lowercase` returns for the given characters.
pub uninterp spec fn lowercase_of(s: Seq<char>) -> Seq<char>;

/// Relies on str::to_lowercase: the result depends on the input characters
/// alone.
#[verifier::external_body]
fn to_lowercase_text(s: &str) -> (r: String)
    ensures
        r@ == lowercase_of(s@),
{
    s.to_lowercase()
}

/// Whether the fixed e-mail pattern matches the given characters.
pub uninterp spec fn matches_email_pattern(s: Seq<char>) -> bool;

/// Relies on regex::Regex::is_match with the fixed e-mail pattern in the
/// body: with a fixed pattern the result depends on the input alone.
#[verifier::external_body]
fn email_pattern_match(s: &str) -> (r: bool)
    ensures
        r == matches_email_pattern(s@),
{
    let re = regex::Regex::new(
        r"^[a-zA-Z0-9.!#$%&'*+/=?^_`{|}~-]+@[a-zA-Z0-9](?:[a-zA-Z0-9-]{0,61}[a-zA-Z0-9])?(?:\.[a-zA-Z0-9](?:[a-zA-Z0-9-]{0,61}[a-zA-Z0-9])?)*$",
    ).unwrap();
    re.is_match(s)
}

/// Whether the fixed phone pattern matches the given characters.
pub uninterp spec fn matches_phone_pattern(s: Seq<char>) -> bool;

/// Relies on regex::Regex::is_match with the fixed phone pattern in the
/// body: with a fixed pattern the result depends on the input alone.
#[verifier::external_body]
fn phone_pattern_match(s: &str) -> (r: bool)
    ensures
        r == matches_phone_pattern(s@),
{
    let re = regex::Regex::new(
        r"^(?:\+?(\d{1,3}))?[-. (]*(\d{1,4})[-. )]*(\d{1,4})[-. ]*(\d{1,9})$",
    ).unwrap();
    re.is_match(s)
}

/// The decimal digits of the input, in order.
pub open spec fn digits_of(s: Seq<char>) -> Seq<char>
    decreases s.len(),
{
    if s.len() == 0 {
        Seq::empty()
    } else {
        digits_of(s.drop_last()) + (if is_digit_char(s.last()) {
            seq![s.last()]
        } else {
            Seq::empty()
        })
    }
}

/// Index of the first occurrence of `c` at or after `i`, or `s.len()`.
pub open spec fn find_char(s: Seq<char>, c: char, i: int) -> int
    decreases s.len() - i when 0 <= i <= s.len()
{
    if i >= s.len() {
        i
    } else if s[i] == c {
        i
    } else {
        find_char(s, c, i + 1)
    }
}

/// The three-character entries of the country-code table, as numeric
/// ranges. The cleaned number holds at least seven digits wherever the
/// code is examined, so exactly three characters are taken, and the one-
/// and two-character entries of the table can never equal them; nor can a
/// code with a leading zero, whose value stays below 100, collide with a
/// listed value.
pub open spec fn is_listed_code_value(v: int) -> bool {
    ||| 211 <= v <= 213
    ||| v == 216
    ||| v == 218
    ||| 220 <= v <= 258
    ||| 260 <= v <= 269
    ||| 290 <= v <= 291
    ||| 297 <= v <= 299
    ||| 350 <= v <= 359
    ||| 370 <= v <= 383
    ||| 385 <= v <= 387
    ||| v == 389
    ||| 420 <= v <= 421
    ||| v == 423
    ||| 500 <= v <= 509
    ||| 590 <= v <= 599
    ||| v == 670
    ||| 672 <= v <= 683
    ||| 685 <= v <= 692
    ||| v == 850
    ||| 852 <= v <= 853
    ||| 855 <= v <= 856
    ||| v == 880
    ||| v == 886
    ||| 960 <= v <= 968
    ||| 970 <= v <= 977
    ||| 992 <= v <= 996
    ||| v == 998
}

/// Whether the country code taken from a cleaned number — empty, or three
/// digits — is acceptable: absent, or a listed code.
pub open spec fn spec_country_code_listed(cc: Seq<char>) -> bool {
    ||| cc.len() == 0
    ||| (cc.len() == 3 && is_digit_char(cc[0]) && is_digit_char(cc[1]) && is_digit_char(cc[2])
        && is_listed_code_value(100 * digit_val(cc[0]) + 10 * digit_val(cc[1]) + digit_val(cc[2])))
}

/// Whether the input is accepted as a phone number: after trimming and
/// lowercasing, the phone pattern matches, the number holds 7 to 15
/// digits, and a number written with a leading `'+'` carries an acceptable
/// country code.
pub open spec fn spec_is_phone(v: Seq<char>) -> bool {
    let n = lowercase_of(spec_trim(v));
    let digits = digits_of(n);
    &&& n.len() > 0
    &&& matches_phone_pattern(n)
    &&& 7 <= digits.len() <= 15
    &&& (n[0] == '+' ==> spec_country_code_listed(digits.take(3)))
}

/// Whether the domain part of the input — everything after the first
/// `'@'` — is acceptable: it holds a `'.'`, and neither starts nor ends
/// with one.
pub open spec fn spec_email_domain_ok(n: Seq<char>) -> bool {
    let a = find_char(n, '@', 0);
    &&& a < n.len()
    &&& a + 1 < n.len()
    &&& find_char(n, '.', a + 1) < n.len()
    &&& n[a + 1] != '.'
    &&& n[n.len() - 1] != '.'
}

/// Whether the input is accepted as an e-mail address: after trimming and
/// lowercasing, the e-mail pattern matches and the domain part is
/// acceptable.
pub open spec fn spec_is_email(v: Seq<char>) -> bool {
    let n = lowercase_of(spec_trim(v));
    &&& n.len() > 0
    &&& matches_email_pattern(n)
    &&& spec_email_domain_ok(n)
}

proof fn lemma_digits_of_all_digits(s: Seq<char>)
    ensures
        forall|k: int|
            0 <= k < digits_of(s).len() ==> is_digit_char(#[trigger] digits_of(s)[k]),
    decreases s.len(),
{
    if s.len() > 0 {
        lemma_digits_of_all_digits(s.drop_last());
        let pre = digits_of(s.drop_last());
        assert forall|k: int| 0 <= k < digits_of(s).len() implies is_digit_char(
            digits_of(s)[k],
        ) by {
            if k < pre.len() {
                assert(digits_of(s)[k] == pre[k]);
            } else {
                assert(is_digit_char(s.last()));
                assert(digits_of(s)[k] == s.last());
            }
        }
    }
}

fn collect_digits(v: &Vec<char>) -> (r: Vec<char>)
    ensures
        r@ == digits_of(v@),
{
    let mut out: Vec<char> = Vec::new();
    let mut i: usize = 0;
    while i < v.len()
        invariant
            0 <= i <= v@.len(),
            out@ == digits_of(v@.take(i as int)),
        decreases v@.len() - i,
    {
        proof {
            assert(v@.take((i + 1) as int).drop_last() =~= v@.take(i as int));
            assert(v@.take((i + 1) as int).last() == v@[i as int]);
        }
        if is_digit(v[i]) {
            out.push(v[i]);
            proof {
                assert(out@ =~= digits_of(v@.take((i + 1) as int)));
            }
        } else {
            proof {
                assert(out@ =~= digits_of(v@.take((i + 1) as int)));
            }
        }
        i = i + 1;
    }
    proof {
        assert(v@.take(v@.len() as int) =~= v@);
    }
    out
}

fn find_char_in(v: &Vec<char>, c: char, i: usize) -> (j: usize)
    requires
        i <= v@.len(),
    ensures
        j as int == find_char(v@, c, i as int),
        i <= j <= v@.len(),
        j < v@.len() ==> v@[j as int] == c,
{
    let mut j = i;
    while j < v.len() && !(v[j] == c)
        invariant
            i <= j <= v@.len(),
            find_char(v@, c, i as int) == find_char(v@, c, j as int),
        decreases v@.len() - j,
    {
        j = j + 1;
    }
    j
}

fn listed_code(v: u32) -> (r: bool)
    ensures
        r == is_listed_code_value(v as int),
{
    (211 <= v && v <= 213) || v == 216 || v == 218 || (220 <= v && v <= 258) || (260 <= v && v
        <= 269) || (290 <= v && v <= 291) || (297 <= v && v <= 299) || (350 <= v && v <= 359) || (
    370 <= v && v <= 383) || (385 <= v && v <= 387) || v == 389 || (420 <= v && v <= 421) || v
        == 423 || (500 <= v && v <= 509) || (590 <= v && v <= 599) || v == 670 || (672 <= v && v
        <= 683) || (685 <= v && v <= 692) || v == 850 || (852 <= v && v <= 853) || (855 <= v && v
        <= 856) || v == 880 || v == 886 || (960 <= v && v <= 968) || (970 <= v && v <= 977) || (
    992 <= v && v <= 996) || v == 998
}

/// Whether the input is accepted as a phone number.
pub fn is_phone(value: &str) -> (r: bool)
    ensures
        r == spec_is_phone(value@),
{
    let trimmed = trim_str(value);
    let normalized = to_lowercase_text(trimmed);
    let n = chars_of(normalized.as_str());
    if n.len() == 0 {
        return false;
    }
    if !phone_pattern_match(normalized.as_str()) {
        return false;
    }
    let digits = collect_digits(&n);
    let dc = digits.len();
    if !(7 <= dc && dc <= 15) {
        return false;
    }
    if n[0] == '+' {
        proof {
            lemma_digits_of_all_digits(n@);
        }
        let d0 = (digits[0] as u32) - 48;
        let d1 = (digits[1] as u32) - 48;
        let d2 = (digits[2] as u32) - 48;
        let code = 100 * d0 + 10 * d1 + d2;
        let ok = listed_code(code);
        proof {
            assert(digits@.take(3) =~= seq![digits@[0], digits@[1], digits@[2]]);
        }
        return ok;
    }
    true
}

/// Whether the input is accepted as an e-mail address.
pub fn is_email(value: &str) -> (r: bool)
    ensures
        r == spec_is_email(value@),
{
    let trimmed = trim_str(value);
    let normalized = to_lowercase_text(trimmed);
    let n = chars_of(normalized.as_str());
    if n.len() == 0 {
        return false;
    }
    if !email_pattern_match(normalized.as_str()) {
        return false;
    }
    let a = find_char_in(&n, '@', 0);
    if a == n.len() {
        return false;
    }
    if a + 1 >= n.len() {
        return false;
    }
    let dot = find_char_in(&n, '.', a + 1);
    if dot == n.len() {
        return false;
    }
    if n[a + 1] == '.' {
        return false;
    }
    if n[n.len() - 1] == '.' {
        return false;
    }
    true
}

/// Whether the input is accepted as a means of authentication: an e-mail
/// address or a phone number.
pub fn is_means_of_auth(value: &str) -> (r: bool)
    ensures
        r == (spec_is_email(value@) || spec_is_phone(value@)),
{
    is_email(value) || is_phone(value)
}

} // verus!

//! Classification of an address into the region of address space it
//! occupies. The rules overlap as numeric ranges, so each matcher checks
//! them in a fixed priority order: the narrow special cases (unspecified,
//! loopback, multicast, broadcast) before the private sweeps, and those
//! before the reserved tail of the address space.

use vstd::prelude::*;

use crate::ip::parse::{embedded_ipv4, ipv4_mapped, parse_ipv4, parse_ipv6, spec_parse_ipv4,
    spec_parse_ipv6, IpAddress, Ipv4Address, Ipv6Address};
use crate::text::{chars_of, spec_trim, trim_str};

verus! {

/// The region of address space an input occupies; exactly one applies.
#[derive(Clone, Copy, Debug, PartialEq, Eq, Structural)]
pub enum IpValidationResult {
    ValidPublicIp(IpAddress),
    ValidPrivateIp(IpAddress),
    InvalidFormat,
    ReservedAddress,
    Loopback,
    Multicast,
    Unspecified,
}

/// The private IPv4 blocks: `10.0.0.0/8`, `172.16.0.0/12`, `192.168.0.0/16`,
/// and the link-local block `169.254.0.0/16`.
pub open spec fn spec_is_private_ipv4(ip: Ipv4Address) -> bool {
    ||| ip.a == 10
    ||| (ip.a == 172 && 16 <= ip.b <= 31)
    ||| (ip.a == 192 && ip.b == 168)
    ||| (ip.a == 169 && ip.b == 254)
}

/// The documentation blocks `192.0.2.0/24`, `198.51.100.0/24`,
/// `203.0.113.0/24`, and the upper range from `224.0.0.0` on.
pub open spec fn spec_is_reserved_ipv4(ip: Ipv4Address) -> bool {
    ||| (ip.a == 192 && ip.b == 0 && ip.c == 2)
    ||| (ip.a == 198 && ip.b == 51 && ip.c == 100)
    ||| (ip.a == 203 && ip.b == 0 && ip.c == 113)
    ||| ip.a >= 224
}

/// IPv4 classification, first matching rule wins: unspecified, loopback
/// (`127.0.0.0/8`), multicast (`224.0.0.0/4`), broadcast, the private
/// blocks, the reserved blocks, else public.
pub open spec fn spec_classify_ipv4(ip: Ipv4Address) -> IpValidationResult {
    if ip.a == 0 && ip.b == 0 && ip.c == 0 && ip.d == 0 {
        IpValidationResult::Unspecified
    } else if ip.a == 127 {
        IpValidationResult::Loopback
    } else if 224 <= ip.a && ip.a <= 239 {
        IpValidationResult::Multicast
    } else if ip.a == 255 && ip.b == 255 && ip.c == 255 && ip.d == 255 {
        IpValidationResult::ReservedAddress
    } else if spec_is_private_ipv4(ip) {
        IpValidationResult::ValidPrivateIp(IpAddress::V4(ip))
    } else if spec_is_reserved_ipv4(ip) {
        IpValidationResult::ReservedAddress
    } else {
        IpValidationResult::ValidPublicIp(IpAddress::V4(ip))
    }
}

/// Whether the last six groups mark an IPv4-mapped (`::ffff:a.b.c.d`) or
/// IPv4-compatible (`::a.b.c.d`) encoding.
pub open spec fn spec_is_ipv4_in_ipv6(ip: Ipv6Address) -> bool {
    ip.s0 == 0 && ip.s1 == 0 && ip.s2 == 0 && ip.s3 == 0 && ip.s4 == 0 && (ip.s5 == 0xffff
        || ip.s5 == 0)
}

/// IPv6 classification, first matching rule wins: unspecified, loopback
/// `::1`, unique-local `fc00::/7`, link-local `fe80::/10`, multicast
/// `ff00::/8`, documentation `2001:db8::/32`; an IPv4-mapped or
/// IPv4-compatible address is classified as the IPv4 address it wraps,
/// reported in the IPv4-flavored category; else public.
pub open spec fn spec_classify_ipv6(ip: Ipv6Address) -> IpValidationResult {
    if ip.s0 == 0 && ip.s1 == 0 && ip.s2 == 0 && ip.s3 == 0 && ip.s4 == 0 && ip.s5 == 0 && ip.s6
        == 0 && ip.s7 == 0 {
        IpValidationResult::Unspecified
    } else if ip.s0 == 0 && ip.s1 == 0 && ip.s2 == 0 && ip.s3 == 0 && ip.s4 == 0 && ip.s5 == 0
        && ip.s6 == 0 && ip.s7 == 1 {
        IpValidationResult::Loopback
    } else if (ip.s0 & 0xfe00) == 0xfc00 {
        IpValidationResult::ValidPrivateIp(IpAddress::V6(ip))
    } else if (ip.s0 & 0xffc0) == 0xfe80 {
        IpValidationResult::ValidPrivateIp(IpAddress::V6(ip))
    } else if (ip.s0 & 0xff00) == 0xff00 {
        IpValidationResult::Multicast
    } else if ip.s0 == 0x2001 && ip.s1 == 0x0db8 {
        IpValidationResult::ReservedAddress
    } else if spec_is_ipv4_in_ipv6(ip) {
        spec_classify_ipv4(embedded_ipv4(ip))
    } else {
        IpValidationResult::ValidPublicIp(IpAddress::V6(ip))
    }
}

/// Classification of a textual input: trim ASCII whitespace; an empty
/// remainder is invalid; otherwise parse as IPv4, then as IPv6, and
/// classify; an input that parses as neither is invalid.
pub open spec fn spec_validate_ip_detailed(s: Seq<char>) -> IpValidationResult {
    let t = spec_trim(s);
    if t.len() == 0 {
        IpValidationResult::InvalidFormat
    } else {
        match spec_parse_ipv4(t) {
            Some(a) => spec_classify_ipv4(a),
            None => match spec_parse_ipv6(t) {
                Some(b) => spec_classify_ipv6(b),
                None => IpValidationResult::InvalidFormat,
            },
        }
    }
}

/// The trimmed input as an address of either family, if it parses.
pub open spec fn spec_parse_ip(s: Seq<char>) -> Option<IpAddress> {
    let t = spec_trim(s);
    match spec_parse_ipv4(t) {
        Some(a) => Some(IpAddress::V4(a)),
        None => match spec_parse_ipv6(t) {
            Some(b) => Some(IpAddress::V6(b)),
            None => None,
        },
    }
}

/// Classifies an IPv4 address.
pub fn validate_ipv4_detailed(ip: Ipv4Address) -> (r: IpValidationResult)
    ensures
        r == spec_classify_ipv4(ip),
{
    if ip.a == 0 && ip.b == 0 && ip.c == 0 && ip.d == 0 {
        return IpValidationResult::Unspecified;
    }
    if ip.a == 127 {
        return IpValidationResult::Loopback;
    }
    if 224 <= ip.a && ip.a <= 239 {
        return IpValidationResult::Multicast;
    }
    if ip.a == 255 && ip.b == 255 && ip.c == 255 && ip.d == 255 {
        return IpValidationResult::ReservedAddress;
    }
    if ip.a == 10 || (ip.a == 172 && 16 <= ip.b && ip.b <= 31) || (ip.a == 192 && ip.b == 168)
        || (ip.a == 169 && ip.b == 254) {
        return IpValidationResult::ValidPrivateIp(IpAddress::V4(ip));
    }
    if (ip.a == 192 && ip.b == 0 && ip.c == 2) || (ip.a == 198 && ip.b == 51 && ip.c == 100) || (
    ip.a == 203 && ip.b == 0 && ip.c == 113) || ip.a >= 224 {
        return IpValidationResult::ReservedAddress;
    }
    IpValidationResult::ValidPublicIp(IpAddress::V4(ip))
}

/// Classifies an IPv6 address.
pub fn validate_ipv6_detailed(ip: Ipv6Address) -> (r: IpValidationResult)
    ensures
        r == spec_classify_ipv6(ip),
{
    if ip.s0 == 0 && ip.s1 == 0 && ip.s2 == 0 && ip.s3 == 0 && ip.s4 == 0 && ip.s5 == 0 && ip.s6
        == 0 && ip.s7 == 0 {
        return IpValidationResult::Unspecified;
    }
    if ip.s0 == 0 && ip.s1 == 0 && ip.s2 == 0 && ip.s3 == 0 && ip.s4 == 0 && ip.s5 == 0 && ip.s6
        == 0 && ip.s7 == 1 {
        return IpValidationResult::Loopback;
    }
    if (ip.s0 & 0xfe00) == 0xfc00 {
        return IpValidationResult::ValidPrivateIp(IpAddress::V6(ip));
    }
    if (ip.s0 & 0xffc0) == 0xfe80 {
        return IpValidationResult::ValidPrivateIp(IpAddress::V6(ip));
    }
    if (ip.s0 & 0xff00) == 0xff00 {
        return IpValidationResult::Multicast;
    }
    if ip.s0 == 0x2001 && ip.s1 == 0x0db8 {
        return IpValidationResult::ReservedAddress;
    }
    if ip.s0 == 0 && ip.s1 == 0 && ip.s2 == 0 && ip.s3 == 0 && ip.s4 == 0 && (ip.s5 == 0xffff
        || ip.s5 == 0) {
        let a = ip.s6 / 256;
        let b = ip.s6 % 256;
        let c = ip.s7 / 256;
        let d = ip.s7 % 256;
        return validate_ipv4_detailed(
            Ipv4Address { a: a as u8, b: b as u8, c: c as u8, d: d as u8 },
        );
    }
    IpValidationResult::ValidPublicIp(IpAddress::V6(ip))
}

/// Classifies a textual input, never failing: anything that does not parse
/// as an address of either family is `InvalidFormat`.
pub fn validate_ip_detailed(ip_str: &str) -> (r: IpValidationResult)
    ensures
        r == spec_validate_ip_detailed(ip_str@),
{
    let trimmed = trim_str(ip_str);
    let v = chars_of(trimmed);
    if v.len() == 0 {
        return IpValidationResult::InvalidFormat;
    }
    match parse_ipv4(&v) {
        Some(a) => validate_ipv4_detailed(a),
        None => match parse_ipv6(&v) {
            Some(b) => validate_ipv6_detailed(b),
            None => IpValidationResult::InvalidFormat,
        },
    }
}

/// Parses a textual input, after trimming, as an address of either family.
pub fn parse_ip(ip_str: &str) -> (r: Option<IpAddress>)
    ensures
        r == spec_parse_ip(ip_str@),
{
    let trimmed = trim_str(ip_str);
    let v = chars_of(trimmed);
    match parse_ipv4(&v) {
        Some(a) => Some(IpAddress::V4(a)),
        None => match parse_ipv6(&v) {
            Some(b) => Some(IpAddress::V6(b)),
            None => None,
        },
    }
}

/// Whether an IPv4 address is valid and publicly routable.
pub fn is_valid_public_ipv4(ip: Ipv4Address) -> (r: bool)
    ensures
        r == (spec_classify_ipv4(ip) is ValidPublicIp),
{
    if (ip.a == 0 && ip.b == 0 && ip.c == 0 && ip.d == 0) || (ip.a == 255 && ip.b == 255 && ip.c
        == 255 && ip.d == 255) {
        return false;
    }
    if ip.a == 10 || (ip.a == 172 && 16 <= ip.b && ip.b <= 31) || (ip.a == 192 && ip.b == 168) {
        return false;
    }
    if ip.a == 169 && ip.b == 254 {
        return false;
    }
    if ip.a == 127 {
        return false;
    }
    if 224 <= ip.a && ip.a <= 239 {
        return false;
    }
    if (ip.a == 192 && ip.b == 0 && ip.c == 2) || (ip.a == 198 && ip.b == 51 && ip.c == 100) || (
    ip.a == 203 && ip.b == 0 && ip.c == 113) || (224 <= ip.a && ip.a <= 239) || ip.a >= 240 {
        return false;
    }
    true
}

/// Whether an IPv6 address is valid and publicly routable; an IPv4-mapped
/// or IPv4-compatible address is judged as the IPv4 address it wraps.
pub fn is_valid_public_ipv6(ip: Ipv6Address) -> (r: bool)
    ensures
        r == (spec_classify_ipv6(ip) is ValidPublicIp),
{
    if ip.s0 == 0 && ip.s1 == 0 && ip.s2 == 0 && ip.s3 == 0 && ip.s4 == 0 && ip.s5 == 0 && ip.s6
        == 0 && ip.s7 == 0 {
        return false;
    }
    if ip.s0 == 0 && ip.s1 == 0 && ip.s2 == 0 && ip.s3 == 0 && ip.s4 == 0 && ip.s5 == 0 && ip.s6
        == 0 && ip.s7 == 1 {
        return false;
    }
    if ip.s0 == 0 && ip.s1 == 0 && ip.s2 == 0 && ip.s3 == 0 && ip.s4 == 0 && (ip.s5 == 0xffff
        || ip.s5 == 0) {
        proof {
            assert((0u16 & 0xfe00) == 0u16) by (bit_vector);
            assert((0u16 & 0xffc0) == 0u16) by (bit_vector);
            assert((0u16 & 0xff00) == 0u16) by (bit_vector);
        }
        let a = ip.s6 / 256;
        let b = ip.s6 % 256;
        let c = ip.s7 / 256;
        let d = ip.s7 % 256;
        return is_valid_public_ipv4(
            Ipv4Address { a: a as u8, b: b as u8, c: c as u8, d: d as u8 },
        );
    }
    if (ip.s0 & 0xfe00) == 0xfc00 {
        return false;
    }
    if (ip.s0 & 0xffc0) == 0xfe80 {
        return false;
    }
    if (ip.s0 & 0xff00) == 0xff00 {
        return false;
    }
    if ip.s0 == 0x2001 && ip.s1 == 0x0db8 {
        return false;
    }
    true
}

/// Whether a textual input is a valid, publicly routable address.
pub fn validate_ip_address(ip_str: &str) -> (r: bool)
    ensures
        r == (spec_validate_ip_detailed(ip_str@) is ValidPublicIp),
{
    let trimmed = trim_str(ip_str);
    let v = chars_of(trimmed);
    if v.len() == 0 {
        return false;
    }
    match parse_ipv4(&v) {
        Some(a) => is_valid_public_ipv4(a),
        None => match parse_ipv6(&v) {
            Some(b) => is_valid_public_ipv6(b),
            None => false,
        },
    }
}

/// A valid IPv4 address outside every listed special block — not
/// unspecified, loopback, multicast, broadcast, private, or reserved — is
/// classified as public.
pub proof fn lemma_ipv4_outside_special_is_public(ip: Ipv4Address)
    requires
        !(ip.a == 0 && ip.b == 0 && ip.c == 0 && ip.d == 0),
        ip.a != 127,
        !(224 <= ip.a && ip.a <= 239),
        !(ip.a == 255 && ip.b == 255 && ip.c == 255 && ip.d == 255),
        !spec_is_private_ipv4(ip),
        !spec_is_reserved_ipv4(ip),
    ensures
        spec_classify_ipv4(ip) == IpValidationResult::ValidPublicIp(IpAddress::V4(ip)),
{
}

/// An IPv4 address in one of the private blocks — `10.0.0.0/8`,
/// `172.16.0.0/12`, `192.168.0.0/16`, or `169.254.0.0/16` — is classified
/// as private.
pub proof fn lemma_ipv4_private_block_is_private(ip: Ipv4Address)
    requires
        spec_is_private_ipv4(ip),
    ensures
        spec_classify_ipv4(ip) == IpValidationResult::ValidPrivateIp(IpAddress::V4(ip)),
{
}

/// A textual input that parses as an IPv4 address outside every listed
/// special block is classified as public.
pub proof fn lemma_text_outside_special_is_public(s: Seq<char>, ip: Ipv4Address)
    requires
        spec_parse_ipv4(spec_trim(s)) == Some(ip),
        !(ip.a == 0 && ip.b == 0 && ip.c == 0 && ip.d == 0),
        ip.a != 127,
        !(224 <= ip.a && ip.a <= 239),
        !(ip.a == 255 && ip.b == 255 && ip.c == 255 && ip.d == 255),
        !spec_is_private_ipv4(ip),
        !spec_is_reserved_ipv4(ip),
    ensures
        spec_validate_ip_detailed(s) == IpValidationResult::ValidPublicIp(IpAddress::V4(ip)),
{
    lemma_ipv4_outside_special_is_public(ip);
}

/// A textual input that parses as an IPv4 address in one of the private
/// blocks is classified as private.
pub proof fn lemma_text_private_block_is_private(s: Seq<char>, ip: Ipv4Address)
    requires
        spec_parse_ipv4(spec_trim(s)) == Some(ip),
        spec_is_private_ipv4(ip),
    ensures
        spec_validate_ip_detailed(s) == IpValidationResult::ValidPrivateIp(IpAddress::V4(ip)),
{
    lemma_ipv4_private_block_is_private(ip);
}

/// Cross-encoding agreement: an IPv4 address and its IPv4-mapped IPv6 form
/// `::ffff:a.b.c.d` are classified alike, both reporting the IPv4-flavored
/// category.
pub proof fn lemma_ipv4_mapped_agrees(ip: Ipv4Address)
    ensures
        spec_classify_ipv6(ipv4_mapped(ip)) == spec_classify_ipv4(ip),
{
    let m = ipv4_mapped(ip);
    assert((0u16 & 0xfe00) == 0u16) by (bit_vector);
    assert((0u16 & 0xffc0) == 0u16) by (bit_vector);
    assert((0u16 & 0xff00) == 0u16) by (bit_vector);
    assert(embedded_ipv4(m) == ip) by {
        let ha = ip.a as int;
        let hb = ip.b as int;
        let hc = ip.c as int;
        let hd = ip.d as int;
        assert((ha * 256 + hb) / 256 == ha && (ha * 256 + hb) % 256 == hb) by (nonlinear_arith)
            requires
                0 <= ha <= 255,
                0 <= hb <= 255,
        ;
        assert((hc * 256 + hd) / 256 == hc && (hc * 256 + hd) % 256 == hd) by (nonlinear_arith)
            requires
                0 <= hc <= 255,
                0 <= hd <= 255,
        ;
    };
}

/// Classification is a pure function of the input characters: equal inputs
/// are classified alike, with no hidden state.
pub proof fn lemma_classify_deterministic(s1: Seq<char>, s2: Seq<char>)
    requires
        s1 == s2,
    ensures
        spec_validate_ip_detailed(s1) == spec_validate_ip_detailed(s2),
{
}

} // verus!

use ipcheck::ip::parse::{IpAddress, Ipv4Address};
use ipcheck::ip::validation::{
    validate_ip_address, validate_ip_detailed, IpValidationResult,
};

fn v4(a: u8, b: u8, c: u8, d: u8) -> IpAddress {
    IpAddress::V4(Ipv4Address { a, b, c, d })
}

#[test]
fn test_validate_ip_address() {
    // Valid public IPs
    assert!(validate_ip_address("8.8.8.8"));
    assert!(validate_ip_address("1.1.1.1"));
    assert!(validate_ip_address("142.251.16.100")); // google.com

    // Private IPs
    assert!(!validate_ip_address("192.168.1.1"));
    assert!(!validate_ip_address("10.0.0.1"));
    assert!(!validate_ip_address("172.16.0.1"));

    // Reserved IPs
    assert!(!validate_ip_address("127.0.0.1"));
    assert!(!validate_ip_address("0.0.0.0"));
    assert!(!validate_ip_address("255.255.255.255"));
    assert!(!validate_ip_address("224.0.0.1"));
    assert!(!validate_ip_address("169.254.0.1"));

    // Invalid formats
    assert!(!validate_ip_address("not.an.ip"));
    assert!(!validate_ip_address("256.256.256.256"));
    assert!(!validate_ip_address(""));
    assert!(!validate_ip_address("  "));
}

#[test]
fn test_detailed_validation() {
    assert_eq!(
        validate_ip_detailed("8.8.8.8"),
        IpValidationResult::ValidPublicIp(v4(8, 8, 8, 8))
    );

    assert_eq!(
        validate_ip_detailed("192.168.1.1"),
        IpValidationResult::ValidPrivateIp(v4(192, 168, 1, 1))
    );

    assert_eq!(validate_ip_detailed("127.0.0.1"), IpValidationResult::Loopback);

    assert_eq!(validate_ip_detailed("invalid"), IpValidationResult::InvalidFormat);
}

#[test]
fn test_public_outside_special_blocks() {
    assert_eq!(
        validate_ip_detailed("93.184.216.34"),
        IpValidationResult::ValidPublicIp(v4(93, 184, 216, 34))
    );
    assert_eq!(
        validate_ip_detailed("172.32.0.1"),
        IpValidationResult::ValidPublicIp(v4(172, 32, 0, 1))
    );
    assert_eq!(
        validate_ip_detailed("192.0.3.1"),
        IpValidationResult::ValidPublicIp(v4(192, 0, 3, 1))
    );
    assert_eq!(
        validate_ip_detailed("223.255.255.255"),
        IpValidationResult::ValidPublicIp(v4(223, 255, 255, 255))
    );
}

#[test]
fn test_private_blocks() {
    assert_eq!(
        validate_ip_detailed("10.0.0.1"),
        IpValidationResult::ValidPrivateIp(v4(10, 0, 0, 1))
    );
    assert_eq!(
        validate_ip_detailed("172.16.0.1"),
        IpValidationResult::ValidPrivateIp(v4(172, 16, 0, 1))
    );
    assert_eq!(
        validate_ip_detailed("172.31.255.254"),
        IpValidationResult::ValidPrivateIp(v4(172, 31, 255, 254))
    );
    assert_eq!(
        validate_ip_detailed("169.254.0.1"),
        IpValidationResult::ValidPrivateIp(v4(169, 254, 0, 1))
    );
}

#[test]
fn test_unspecified_addresses() {
    assert_eq!(validate_ip_detailed("0.0.0.0"), IpValidationResult::Unspecified);
    assert_eq!(validate_ip_detailed("::"), IpValidationResult::Unspecified);
}

#[test]
fn test_loopback_addresses() {
    assert_eq!(validate_ip_detailed("127.0.0.1"), IpValidationResult::Loopback);
    assert_eq!(validate_ip_detailed("127.255.0.3"), IpValidationResult::Loopback);
    assert_eq!(validate_ip_detailed("::1"), IpValidationResult::Loopback);
}

#[test]
fn test_multicast_addresses() {
    assert_eq!(validate_ip_detailed("224.0.0.1"), IpValidationResult::Multicast);
    assert_eq!(validate_ip_detailed("239.255.255.255"), IpValidationResult::Multicast);
    assert_eq!(validate_ip_detailed("ff02::1"), IpValidationResult::Multicast);
    assert_eq!(validate_ip_detailed("ff00::"), IpValidationResult::Multicast);
}

#[test]
fn test_reserved_addresses() {
    assert_eq!(
        validate_ip_detailed("255.255.255.255"),
        IpValidationResult::ReservedAddress
    );
    assert_eq!(validate_ip_detailed("192.0.2.5"), IpValidationResult::ReservedAddress);
    assert_eq!(
        validate_ip_detailed("198.51.100.77"),
        IpValidationResult::ReservedAddress
    );
    assert_eq!(
        validate_ip_detailed("203.0.113.200"),
        IpValidationResult::ReservedAddress
    );
    assert_eq!(validate_ip_detailed("240.0.0.1"), IpValidationResult::ReservedAddress);
    assert_eq!(validate_ip_detailed("2001:db8::1"), IpValidationResult::ReservedAddress);
}

#[test]
fn test_ipv6_private_blocks() {
    let fc = validate_ip_detailed("fc00::1");
    assert!(matches!(fc, IpValidationResult::ValidPrivateIp(IpAddress::V6(_))));
    let fd = validate_ip_detailed("fdab:1::2");
    assert!(matches!(fd, IpValidationResult::ValidPrivateIp(IpAddress::V6(_))));
    let fe = validate_ip_detailed("fe80::1");
    assert!(matches!(fe, IpValidationResult::ValidPrivateIp(IpAddress::V6(_))));
}

#[test]
fn test_ipv6_public() {
    let g = validate_ip_detailed("2607:f8b0:4005:80b::200e");
    assert!(matches!(g, IpValidationResult::ValidPublicIp(IpAddress::V6(_))));
    let full = validate_ip_detailed("1:2:3:4:5:6:7:8");
    assert!(matches!(full, IpValidationResult::ValidPublicIp(IpAddress::V6(_))));
    let tail_zero = validate_ip_detailed("1:2:3:4:5:6:7::");
    assert!(matches!(tail_zero, IpValidationResult::ValidPublicIp(IpAddress::V6(_))));
}

#[test]
fn test_ipv4_mapped_agreement() {
    assert_eq!(
        validate_ip_detailed("::ffff:8.8.8.8"),
        validate_ip_detailed("8.8.8.8")
    );
    assert_eq!(
        validate_ip_detailed("::ffff:192.168.1.1"),
        validate_ip_detailed("192.168.1.1")
    );
    assert_eq!(
        validate_ip_detailed("::ffff:10.1.2.3"),
        validate_ip_detailed("10.1.2.3")
    );
    // The mapped form of a private address reports the IPv4-flavored category.
    assert_eq!(
        validate_ip_detailed("::ffff:192.168.1.1"),
        IpValidationResult::ValidPrivateIp(v4(192, 168, 1, 1))
    );
    // An IPv4-compatible encoding unwraps the same way.
    assert_eq!(
        validate_ip_detailed("::8.8.8.8"),
        IpValidationResult::ValidPublicIp(v4(8, 8, 8, 8))
    );
}

#[test]
fn test_invalid_formats() {
    assert_eq!(validate_ip_detailed(""), IpValidationResult::InvalidFormat);
    assert_eq!(validate_ip_detailed("   "), IpValidationResult::InvalidFormat);
    assert_eq!(validate_ip_detailed("not.an.ip"), IpValidationResult::InvalidFormat);
    assert_eq!(
        validate_ip_detailed("256.256.256.256"),
        IpValidationResult::InvalidFormat
    );
    assert_eq!(validate_ip_detailed("1.2.3"), IpValidationResult::InvalidFormat);
    assert_eq!(validate_ip_detailed("1.2.3.4.5"), IpValidationResult::InvalidFormat);
    assert_eq!(validate_ip_detailed("8.08.8.8"), IpValidationResult::InvalidFormat);
    assert_eq!(validate_ip_detailed(":::"), IpValidationResult::InvalidFormat);
    assert_eq!(validate_ip_detailed("1:2:3:4::5:6:7:8"), IpValidationResult::InvalidFormat);
    assert_eq!(
        validate_ip_detailed("1:2:3:4:5:6:7:8:9"),
        IpValidationResult::InvalidFormat
    );
    assert_eq!(validate_ip_detailed("12345::"), IpValidationResult::InvalidFormat);
    assert_eq!(
        validate_ip_detailed("::ffff:256.1.1.1"),
        IpValidationResult::InvalidFormat
    );
}

#[test]
fn test_whitespace_is_trimmed() {
    assert_eq!(
        validate_ip_detailed("  8.8.8.8  "),
        IpValidationResult::ValidPublicIp(v4(8, 8, 8, 8))
    );
    assert_eq!(
        validate_ip_detailed("\t10.0.0.1\n"),
        IpValidationResult::ValidPrivateIp(v4(10, 0, 0, 1))
    );
}

#[test]
fn test_classification_is_idempotent() {
    let inputs = ["8.8.8.8", "192.168.1.1", "::1", "ff02::1", "bogus", ""];
    for input in inputs {
        assert_eq!(validate_ip_detailed(input), validate_ip_detailed(input));
        assert_eq!(validate_ip_address(input), validate_ip_address(input));
    }
}

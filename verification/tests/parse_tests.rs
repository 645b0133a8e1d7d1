use ipcheck::ip::parse::{IpAddress, Ipv4Address, Ipv6Address};
use ipcheck::ip::validation::parse_ip;
use ipcheck::text::last_line;

#[test]
fn test_parse_ip_v4() {
    assert_eq!(
        parse_ip("192.168.1.1"),
        Some(IpAddress::V4(Ipv4Address { a: 192, b: 168, c: 1, d: 1 }))
    );
    assert_eq!(
        parse_ip(" 0.0.0.0 "),
        Some(IpAddress::V4(Ipv4Address { a: 0, b: 0, c: 0, d: 0 }))
    );
    assert_eq!(parse_ip("256.1.1.1"), None);
    assert_eq!(parse_ip("1.2.3"), None);
    assert_eq!(parse_ip(""), None);
}

#[test]
fn test_parse_ip_v6() {
    assert_eq!(
        parse_ip("2001:db8::1"),
        Some(IpAddress::V6(Ipv6Address {
            s0: 0x2001,
            s1: 0x0db8,
            s2: 0,
            s3: 0,
            s4: 0,
            s5: 0,
            s6: 0,
            s7: 1,
        }))
    );
    assert_eq!(
        parse_ip("1:2:3:4:5:6:7:8"),
        Some(IpAddress::V6(Ipv6Address {
            s0: 1,
            s1: 2,
            s2: 3,
            s3: 4,
            s4: 5,
            s5: 6,
            s6: 7,
            s7: 8,
        }))
    );
    assert_eq!(
        parse_ip("::ffff:1.2.3.4"),
        Some(IpAddress::V6(Ipv6Address {
            s0: 0,
            s1: 0,
            s2: 0,
            s3: 0,
            s4: 0,
            s5: 0xffff,
            s6: 0x0102,
            s7: 0x0304,
        }))
    );
    assert_eq!(
        parse_ip("1:2:3:4:5:6:1.2.3.4"),
        Some(IpAddress::V6(Ipv6Address {
            s0: 1,
            s1: 2,
            s2: 3,
            s3: 4,
            s4: 5,
            s5: 6,
            s6: 0x0102,
            s7: 0x0304,
        }))
    );
    // Hexadecimal groups may carry leading zeros; dotted-quad octets may not.
    assert_eq!(
        parse_ip("0001:0:0:0:0:0:0:00a2"),
        Some(IpAddress::V6(Ipv6Address {
            s0: 1,
            s1: 0,
            s2: 0,
            s3: 0,
            s4: 0,
            s5: 0,
            s6: 0,
            s7: 0xa2,
        }))
    );
    assert_eq!(parse_ip("1.2.3.4::5"), None);
    assert_eq!(parse_ip("1:2"), None);
}

#[test]
fn test_last_line() {
    assert_eq!(last_line(""), None);
    assert_eq!(last_line("1.2.3.4").as_deref(), Some("1.2.3.4"));
    assert_eq!(last_line("x\ny\n").as_deref(), Some("y"));
    assert_eq!(last_line("abc\r\n").as_deref(), Some("abc"));
    assert_eq!(
        last_line("HTTP/1.1 200 OK\r\nContent-Length: 7\r\n\r\n8.8.8.8").as_deref(),
        Some("8.8.8.8")
    );
    assert_eq!(last_line("\n").as_deref(), Some(""));
}

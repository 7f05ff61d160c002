use nanogeoip::ip::{parse_ip, IpAddress};

#[test]
fn plain_dotted_quads_parse() {
    assert_eq!(parse_ip("127.0.0.1"), Some(IpAddress::V4(127, 0, 0, 1)));
    assert_eq!(parse_ip("0.0.0.0"), Some(IpAddress::V4(0, 0, 0, 0)));
    assert_eq!(
        parse_ip("255.255.255.255"),
        Some(IpAddress::V4(255, 255, 255, 255))
    );
    assert_eq!(parse_ip("203.0.113.5"), Some(IpAddress::V4(203, 0, 113, 5)));
    assert_eq!(parse_ip("192.168.1.1"), Some(IpAddress::V4(192, 168, 1, 1)));
}

#[test]
fn out_of_range_octets_are_rejected() {
    assert_eq!(parse_ip("256.0.0.1"), None);
    assert_eq!(parse_ip("1.2.3.300"), None);
    assert_eq!(parse_ip("1000.2.3.4"), None);
}

#[test]
fn leading_zero_octets_are_rejected() {
    assert_eq!(parse_ip("01.2.3.4"), None);
    assert_eq!(parse_ip("192.168.01.1"), None);
    assert_eq!(parse_ip("00.0.0.0"), None);
}

#[test]
fn malformed_quads_are_rejected() {
    assert_eq!(parse_ip(""), None);
    assert_eq!(parse_ip("1.2.3"), None);
    assert_eq!(parse_ip("1.2.3.4.5"), None);
    assert_eq!(parse_ip("1..2.3.4"), None);
    assert_eq!(parse_ip("1.2.3.4 "), None);
    assert_eq!(parse_ip(" 1.2.3.4"), None);
    assert_eq!(parse_ip("-1.2.3.4"), None);
    assert_eq!(parse_ip("1.2.3.4x"), None);
    assert_eq!(parse_ip("a.b.c.d"), None);
    assert_eq!(parse_ip("not-an-ip"), None);
}

#[test]
fn full_ipv6_addresses_parse() {
    assert_eq!(
        parse_ip("1:2:3:4:5:6:7:8"),
        Some(IpAddress::V6(1, 2, 3, 4, 5, 6, 7, 8))
    );
    assert_eq!(
        parse_ip("2001:db8:0:0:0:8a2e:370:7334"),
        Some(IpAddress::V6(0x2001, 0xdb8, 0, 0, 0, 0x8a2e, 0x370, 0x7334))
    );
    assert_eq!(
        parse_ip("A:b:C:d:E:f:10:20"),
        Some(IpAddress::V6(0xa, 0xb, 0xc, 0xd, 0xe, 0xf, 0x10, 0x20))
    );
    assert_eq!(
        parse_ip("0000:0000:0000:0000:0000:0000:0000:0001"),
        Some(IpAddress::V6(0, 0, 0, 0, 0, 0, 0, 1))
    );
}

#[test]
fn compressed_ipv6_addresses_parse() {
    assert_eq!(parse_ip("::"), Some(IpAddress::V6(0, 0, 0, 0, 0, 0, 0, 0)));
    assert_eq!(parse_ip("::1"), Some(IpAddress::V6(0, 0, 0, 0, 0, 0, 0, 1)));
    assert_eq!(
        parse_ip("fe80::"),
        Some(IpAddress::V6(0xfe80, 0, 0, 0, 0, 0, 0, 0))
    );
    assert_eq!(
        parse_ip("2001:db8::8a2e:370:7334"),
        Some(IpAddress::V6(0x2001, 0xdb8, 0, 0, 0, 0x8a2e, 0x370, 0x7334))
    );
    assert_eq!(
        parse_ip("1:2:3:4:5:6:7::"),
        Some(IpAddress::V6(1, 2, 3, 4, 5, 6, 7, 0))
    );
    assert_eq!(
        parse_ip("::2:3:4:5:6:7:8"),
        Some(IpAddress::V6(0, 2, 3, 4, 5, 6, 7, 8))
    );
}

#[test]
fn embedded_dotted_quads_parse() {
    assert_eq!(
        parse_ip("::ffff:192.168.1.1"),
        Some(IpAddress::V6(0, 0, 0, 0, 0, 0xffff, 0xc0a8, 0x0101))
    );
    assert_eq!(
        parse_ip("1:2:3:4:5:6:77.77.88.88"),
        Some(IpAddress::V6(1, 2, 3, 4, 5, 6, 0x4d4d, 0x5858))
    );
    assert_eq!(
        parse_ip("::1.2.3.4"),
        Some(IpAddress::V6(0, 0, 0, 0, 0, 0, 0x0102, 0x0304))
    );
}

#[test]
fn malformed_ipv6_addresses_are_rejected() {
    assert_eq!(parse_ip(":::"), None);
    assert_eq!(parse_ip(":"), None);
    assert_eq!(parse_ip(":1:2:3:4:5:6:7:8"), None);
    assert_eq!(parse_ip("1:2:3:4:5:6:7"), None);
    assert_eq!(parse_ip("1:2:3:4:5:6:7:8:9"), None);
    assert_eq!(parse_ip("1::2::3"), None);
    assert_eq!(parse_ip("1:2:3:4:5:6:7:8::"), None);
    assert_eq!(parse_ip("1:2:3:4:5:6:7::8"), None);
    assert_eq!(parse_ip("12345::"), None);
    assert_eq!(parse_ip("g::1"), None);
    assert_eq!(parse_ip("1:2.2.2.2"), None);
    assert_eq!(parse_ip("::1.2.3.4:5"), None);
    assert_eq!(parse_ip("::ffff:1.2.3.4.5"), None);
    assert_eq!(parse_ip("1:2:3:4:5:6:7:8 "), None);
    assert_eq!(parse_ip("[::1]"), None);
    assert_eq!(parse_ip("::1%eth0"), None);
}

#[test]
fn dotted_quads_are_not_ipv6_groups() {
    // An embedded dotted quad is only legal at the tail, never before
    // the `::` or on its own.
    assert_eq!(parse_ip("1.2.3.4::"), None);
    assert_eq!(parse_ip("1.2.3.4::5"), None);
}

use cli_switch::ip::{parse_ip, IpAddr, Ipv4Addr, Ipv6Addr};

fn v6(s: [u16; 8]) -> IpAddr {
    IpAddr::V6(Ipv6Addr::new(s[0], s[1], s[2], s[3], s[4], s[5], s[6], s[7]))
}

#[test]
fn parses_dotted_quads() {
    assert_eq!(parse_ip("0.0.0.0"), Some(IpAddr::V4(Ipv4Addr::new(0, 0, 0, 0))));
    assert_eq!(parse_ip("255.255.255.255"), Some(IpAddr::V4(Ipv4Addr::new(255, 255, 255, 255))));
    assert_eq!(parse_ip("192.168.1.20"), Some(IpAddr::V4(Ipv4Addr::new(192, 168, 1, 20))));
}

#[test]
fn refuses_malformed_dotted_quads() {
    for bad in [
        "", "1.2.3", "1.2.3.4.5", "256.1.1.1", "01.2.3.4", "1.2.3.04", "1..3.4", "1.2.3.4.",
        ".1.2.3", "1.2.3.a", "1.2.3.1000", " 1.2.3.4", "1.2.3.4 ", "+1.2.3.4",
    ] {
        assert_eq!(parse_ip(bad), None, "{bad:?} should be refused");
    }
}

#[test]
fn parses_ipv6_forms() {
    assert_eq!(parse_ip("::"), Some(v6([0; 8])));
    assert_eq!(parse_ip("::1"), Some(v6([0, 0, 0, 0, 0, 0, 0, 1])));
    assert_eq!(parse_ip("1::"), Some(v6([1, 0, 0, 0, 0, 0, 0, 0])));
    assert_eq!(parse_ip("1:2:3:4:5:6:7:8"), Some(v6([1, 2, 3, 4, 5, 6, 7, 8])));
    assert_eq!(parse_ip("2001:DB8::a:B"), Some(v6([0x2001, 0xdb8, 0, 0, 0, 0, 0xa, 0xb])));
    assert_eq!(parse_ip("1:2:3:4:5:6:7::"), Some(v6([1, 2, 3, 4, 5, 6, 7, 0])));
    assert_eq!(parse_ip("::2:3:4:5:6:7:8"), Some(v6([0, 2, 3, 4, 5, 6, 7, 8])));
    assert_eq!(parse_ip("0000:ffff::0001"), Some(v6([0, 0xffff, 0, 0, 0, 0, 0, 1])));
    assert_eq!(parse_ip("::ffff:1.2.3.4"), Some(v6([0, 0, 0, 0, 0, 0xffff, 0x0102, 0x0304])));
    assert_eq!(parse_ip("1:2:3:4:5:6:1.2.3.4"), Some(v6([1, 2, 3, 4, 5, 6, 0x0102, 0x0304])));
    assert_eq!(parse_ip("::1.2.3.4"), Some(v6([0, 0, 0, 0, 0, 0, 0x0102, 0x0304])));
}

#[test]
fn refuses_malformed_ipv6() {
    for bad in [
        ":", ":::", "1:::2", "1::2::3", "1:2:3:4:5:6:7", "1:2:3:4:5:6:7:8:9", "1:2:3:4:5:6:7:8::",
        "::1:2:3:4:5:6:7:8", "12345::", "g::", "1.2.3.4::", "1:2:3:4:5:6:7:1.2.3.4",
        "::1.2.3", "1::2.3", ":1::", "1:", "::ffff:1.2.3.256", "[::1]", "::1%eth0",
        "1:2:3:4:5:6:7:1.2.3.4", "1::2:3:4:5:6:7:8",
    ] {
        assert_eq!(parse_ip(bad), None, "{bad:?} should be refused");
    }
}

#[test]
fn renders_addresses_as_display_does() {
    assert_eq!(IpAddr::V4(Ipv4Addr::new(10, 0, 200, 7)).to_text(), "10.0.200.7");
    assert_eq!(v6([0; 8]).to_text(), "::");
    assert_eq!(v6([0, 0, 0, 0, 0, 0, 0, 1]).to_text(), "::1");
    assert_eq!(v6([0x2001, 0xdb8, 0, 0, 0, 0, 0, 1]).to_text(), "2001:db8::1");
    assert_eq!(v6([1, 0, 0, 2, 0, 0, 0, 3]).to_text(), "1:0:0:2::3");
    assert_eq!(v6([1, 0, 0, 2, 0, 0, 3, 4]).to_text(), "1::2:0:0:3:4");
    assert_eq!(v6([1, 0, 2, 3, 4, 5, 6, 7]).to_text(), "1:0:2:3:4:5:6:7");
    assert_eq!(v6([0, 0, 0, 0, 0, 0xffff, 0x0102, 0x0304]).to_text(), "::ffff:1.2.3.4");
    assert_eq!(v6([0xabcd, 0, 0, 0, 0, 0, 0, 0]).to_text(), "abcd::");
}

#[test]
fn text_parses_back_to_the_same_address() {
    for text in ["1.2.3.4", "::", "::1", "2001:db8::1", "1:0:0:2::3", "::ffff:1.2.3.4", "abcd::"] {
        let addr = parse_ip(text).unwrap();
        assert_eq!(addr.to_text(), text);
    }
}

#[test]
fn loopback_and_unspecified() {
    assert!(IpAddr::V4(Ipv4Addr::new(127, 9, 9, 9)).is_loopback());
    assert!(!IpAddr::V4(Ipv4Addr::new(128, 0, 0, 1)).is_loopback());
    assert!(v6([0, 0, 0, 0, 0, 0, 0, 1]).is_loopback());
    assert!(!v6([0, 0, 0, 0, 0, 0, 0, 2]).is_loopback());
    assert!(IpAddr::V4(Ipv4Addr::new(0, 0, 0, 0)).is_unspecified());
    assert!(v6([0; 8]).is_unspecified());
    assert!(!v6([0, 0, 0, 0, 0, 0, 0, 1]).is_unspecified());
    assert_eq!(Ipv4Addr::new(1, 2, 3, 4).octets(), [1, 2, 3, 4]);
    assert_eq!(Ipv6Addr::new(1, 2, 3, 4, 5, 6, 7, 8).segments(), [1, 2, 3, 4, 5, 6, 7, 8]);
}

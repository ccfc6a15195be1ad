//! Go's `net` semantics: `To4`, `IsLoopback`, `Equal`, `ParseIP` and the `%s`
//! rendering of an address.

use sonyflake::gonet::{hex, ip_to_string, Addr, Ip, IpNet};

/// Parses the IPv6 texts these tests use; the library hands IPv6 text to a
/// parser the caller gives it.
fn parse_ipv6(s: &str) -> Option<Vec<u8>> {
    if s == "::1" {
        let mut v = vec![0u8; 16];
        v[15] = 1;
        Some(v)
    } else {
        None
    }
}

/// Go's `IP.To4`: a 4-byte address is itself, an IPv4-mapped 16-byte address is
/// its last four bytes, and anything else is nil.
#[test]
fn to4_matches_go() {
    assert_eq!(Ip::v4(192, 168, 0, 1).to4(), Some(Ip::v4(192, 168, 0, 1)));

    let mapped = Ip(vec![0, 0, 0, 0, 0, 0, 0, 0, 0, 0, 0xff, 0xff, 192, 168, 0, 1]);
    assert_eq!(mapped.to4(), Some(Ip::v4(192, 168, 0, 1)));

    let v6 = Ip(vec![0x20, 0x01, 0xd, 0xb8, 0, 0, 0, 0, 0, 0, 0, 0, 0, 0, 0, 1]);
    assert_eq!(v6.to4(), None);

    assert_eq!(Ip(vec![1, 2, 3]).to4(), None);
}

/// Go's `IP.IsLoopback`, over both address widths.
#[test]
fn is_loopback_matches_go() {
    assert!(Ip::v4(127, 0, 0, 1).is_loopback());
    assert!(Ip::v4(127, 255, 255, 254).is_loopback());
    assert!(!Ip::v4(192, 168, 0, 1).is_loopback());

    let mapped_loopback = Ip(vec![0, 0, 0, 0, 0, 0, 0, 0, 0, 0, 0xff, 0xff, 127, 0, 0, 1]);
    assert!(mapped_loopback.is_loopback());

    let mut v6_loopback = vec![0u8; 16];
    v6_loopback[15] = 1;
    assert!(Ip(v6_loopback).is_loopback());

    assert!(!Ip(vec![0u8; 16]).is_loopback());
}

/// Go's `IP.Equal` treats the 4-byte and IPv4-mapped 16-byte forms of one address
/// as equal, which plain byte equality would not.
#[test]
fn equal_matches_go() {
    let four = Ip::v4(192, 168, 0, 1);
    let mapped = Ip(vec![0, 0, 0, 0, 0, 0, 0, 0, 0, 0, 0xff, 0xff, 192, 168, 0, 1]);

    assert!(four.equal(&four));
    assert!(four.equal(&mapped));
    assert!(mapped.equal(&four));
    assert!(!four.equal(&Ip::v4(192, 168, 0, 2)));

    // A 16-byte address that is not IPv4-mapped never equals a 4-byte one.
    let v6 = Ip(vec![0x20, 0x01, 0xd, 0xb8, 0, 0, 0, 0, 0, 0, 0, 0, 192, 168, 0, 1]);
    assert!(!four.equal(&v6));
}

/// Go's `net.ParseIP`: IPv4 comes back in its 16-byte mapped form, and the strict
/// field rules (no leading zeros, no out-of-range octet, exactly four fields)
/// reject everything else.
#[test]
fn parse_matches_go() {
    let p = |s: &str| Ip::parse(s, &parse_ipv6);
    let parsed = p("192.168.0.1").expect("should parse");
    assert_eq!(parsed.as_bytes().len(), 16);
    assert!(parsed.equal(&Ip::v4(192, 168, 0, 1)));

    assert_eq!(p("010.1.1.1"), None, "leading zero is rejected");
    assert_eq!(p("256.1.1.1"), None, "octet out of range");
    assert_eq!(p("1.2.3"), None, "too few fields");
    assert_eq!(p("1.2.3.4.5"), None, "too many fields");
    assert_eq!(p("1.2.3."), None, "empty field");
    assert_eq!(p("1.2.3.x"), None, "non-numeric field");
    assert_eq!(p(""), None);
    assert_eq!(p("not an ip"), None);

    assert!(p("::1").is_some(), "IPv6 parses");
    assert_eq!(p("::zz"), None);
}

/// Edge cases of the dotted form: the largest octet, a single zero field, and a
/// text with both a dot and a colon, which goes to the IPv6 parser.
#[test]
fn parse_edge_cases() {
    let p = |s: &str| Ip::parse(s, &parse_ipv6);
    assert_eq!(
        p("255.0.0.0"),
        Some(Ip(vec![0, 0, 0, 0, 0, 0, 0, 0, 0, 0, 0xff, 0xff, 255, 0, 0, 0]))
    );
    assert_eq!(p("1.2.3.1000"), None);
    assert_eq!(p("::ffff:1.2.3.4"), None);
}

/// Go's `%s` verb on a `net.IP`, including the nil rendering.
#[test]
fn display_matches_go() {
    assert_eq!(Ip::v4(192, 168, 0, 1).to_string(), "192.168.0.1");

    let mapped = Ip(vec![0, 0, 0, 0, 0, 0, 0, 0, 0, 0, 0xff, 0xff, 10, 0, 0, 7]);
    assert_eq!(mapped.to_string(), "10.0.0.7");

    let mut v6 = vec![0u8; 16];
    v6[15] = 1;
    assert_eq!(Ip(v6).to_string(), "::1");

    // A length Go cannot interpret renders as its hex, prefixed with '?'.
    assert_eq!(Ip(vec![1, 2, 3]).to_string(), "?010203");
    // Go's %s prints a zero-length IP as <nil>.
    assert_eq!(Ip(vec![]).to_string(), "<nil>");

    assert_eq!(ip_to_string(&Some(Ip::v4(10, 0, 0, 1))), "10.0.0.1");
    assert_eq!(ip_to_string(&None), "<nil>");
}

/// RFC 5952 text of IPv6 addresses: the longest run of zero groups, the first
/// of equal runs, is shortened, and a lone zero group is not.
#[test]
fn ipv6_text_matches_go() {
    let v6 = Ip(vec![0x20, 0x01, 0xd, 0xb8, 0, 0, 0, 0, 0, 0, 0, 0, 0, 0, 0, 1]);
    assert_eq!(v6.to_string(), "2001:db8::1");
    let lone = Ip(vec![0x20, 0x01, 0xd, 0xb8, 0, 0, 0, 1, 0, 1, 0, 1, 0, 1, 0, 1]);
    assert_eq!(lone.to_string(), "2001:db8:0:1:1:1:1:1");
    let two_runs = Ip(vec![0x20, 0x01, 0, 0, 0, 0, 0, 1, 0, 0, 0, 0, 0, 0, 0, 1]);
    assert_eq!(two_runs.to_string(), "2001:0:0:1::1");
    let equal_runs = Ip(vec![0x20, 0x01, 0, 0, 0, 0, 0, 1, 0, 1, 0, 0, 0, 0, 0, 1]);
    assert_eq!(equal_runs.to_string(), "2001::1:1:0:0:1");
    assert_eq!(Ip(vec![0u8; 16]).to_string(), "::");
    assert_eq!(hex(&vec![0xab, 0x01]), "ab01");
}

/// The replacement for Go's `a.(*net.IPNet)` type assertion.
#[test]
fn addr_as_ip_net_matches_go_type_assertion() {
    let ipnet = IpNet { ip: Ip::v4(192, 168, 0, 1), mask: vec![255, 255, 255, 0] };
    let addr = Addr::IpNet(ipnet.clone());
    assert_eq!(addr.as_ip_net(), Some(&ipnet));

    assert_eq!(Addr::IpAddr(Ip::v4(192, 168, 0, 1)).as_ip_net(), None);
}

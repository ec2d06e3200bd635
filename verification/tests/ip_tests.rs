use coreplus::net::ip::{AddrParseError, IpAddr, Ipv4Addr, Ipv6Addr};

#[test]
fn ipv4_parse_simple() {
    let a = Ipv4Addr::parse("127.0.0.1").unwrap();
    assert_eq!(a, Ipv4Addr::new(127, 0, 0, 1));
    assert_eq!(a.octets(), [127, 0, 0, 1]);
}

#[test]
fn ipv4_parse_extremes() {
    assert_eq!(
        Ipv4Addr::parse("0.0.0.0").unwrap(),
        Ipv4Addr::new(0, 0, 0, 0)
    );
    assert_eq!(
        Ipv4Addr::parse("255.255.255.255").unwrap(),
        Ipv4Addr::new(255, 255, 255, 255)
    );
}

#[test]
fn ipv4_rejects_leading_zero() {
    assert_eq!(Ipv4Addr::parse("1.2.3.04"), Err(AddrParseError));
    assert_eq!(Ipv4Addr::parse("01.2.3.4"), Err(AddrParseError));
    assert_eq!(Ipv4Addr::parse("1.2.3.00"), Err(AddrParseError));
}

#[test]
fn ipv4_rejects_wrong_shape() {
    assert!(Ipv4Addr::parse("1.2.3.4.5").is_err());
    assert!(Ipv4Addr::parse("1.2.3").is_err());
    assert!(Ipv4Addr::parse("256.1.1.1").is_err());
    assert!(Ipv4Addr::parse("1.2.3.4 ").is_err());
    assert!(Ipv4Addr::parse(" 1.2.3.4").is_err());
    assert!(Ipv4Addr::parse("1..2.3").is_err());
    assert!(Ipv4Addr::parse("").is_err());
    assert!(Ipv4Addr::parse("1.2.3.x").is_err());
}

#[test]
fn ipv4_round_trip() {
    for text in ["0.0.0.0", "127.0.0.1", "10.0.0.1", "255.255.255.255", "192.168.7.42"] {
        let a = Ipv4Addr::parse(text).unwrap();
        assert_eq!(a.to_text(), text);
        assert_eq!(Ipv4Addr::parse(&a.to_text()).unwrap(), a);
    }
}

#[test]
fn ipv4_classification() {
    assert!(Ipv4Addr::new(127, 0, 0, 1).is_loopback());
    assert!(!Ipv4Addr::new(128, 0, 0, 1).is_loopback());
    assert!(Ipv4Addr::new(224, 0, 0, 251).is_multicast());
    assert!(Ipv4Addr::new(239, 255, 255, 255).is_multicast());
    assert!(!Ipv4Addr::new(240, 0, 0, 1).is_multicast());
    assert!(Ipv4Addr::new(0, 0, 0, 0).is_unspecified());
    assert!(!Ipv4Addr::new(0, 0, 0, 1).is_unspecified());
    assert!(Ipv4Addr::new(169, 254, 1, 1).is_link_local());
    assert!(!Ipv4Addr::new(169, 253, 1, 1).is_link_local());
}

#[test]
fn ipv6_parse_full_form() {
    let a = Ipv6Addr::parse("1:2:3:4:5:6:7:8").unwrap();
    assert_eq!(a, Ipv6Addr::new(1, 2, 3, 4, 5, 6, 7, 8));
    assert_eq!(a.segments(), [1, 2, 3, 4, 5, 6, 7, 8]);
}

#[test]
fn ipv6_parse_elision() {
    assert_eq!(
        Ipv6Addr::parse("::").unwrap(),
        Ipv6Addr::new(0, 0, 0, 0, 0, 0, 0, 0)
    );
    assert_eq!(
        Ipv6Addr::parse("::1").unwrap(),
        Ipv6Addr::new(0, 0, 0, 0, 0, 0, 0, 1)
    );
    assert_eq!(
        Ipv6Addr::parse("1::").unwrap(),
        Ipv6Addr::new(1, 0, 0, 0, 0, 0, 0, 0)
    );
    assert_eq!(
        Ipv6Addr::parse("2001:db8::1").unwrap(),
        Ipv6Addr::new(0x2001, 0xdb8, 0, 0, 0, 0, 0, 1)
    );
    assert_eq!(
        Ipv6Addr::parse("1::2:0:0:3:4").unwrap(),
        Ipv6Addr::new(1, 0, 0, 2, 0, 0, 3, 4)
    );
    assert_eq!(
        Ipv6Addr::parse("1:2:3:4:5:6:7::").unwrap(),
        Ipv6Addr::new(1, 2, 3, 4, 5, 6, 7, 0)
    );
}

#[test]
fn ipv6_elision_of_single_group() {
    assert_eq!(
        Ipv6Addr::parse("::1:2:3:4:5:6:7").unwrap(),
        Ipv6Addr::new(0, 1, 2, 3, 4, 5, 6, 7)
    );
    // the elision must stand for at least one group
    assert!(Ipv6Addr::parse("::1:2:3:4:5:6:7:8").is_err());
}

#[test]
fn ipv6_translation_prefix() {
    assert_eq!(
        Ipv6Addr::parse("64:ff9b::1.2.3.4").unwrap(),
        Ipv6Addr::new(0x64, 0xff9b, 0, 0, 0, 0, 0x0102, 0x0304)
    );
}

#[test]
fn ipv6_parse_case_and_zeros() {
    assert_eq!(
        Ipv6Addr::parse("2001:0DB8::0001").unwrap(),
        Ipv6Addr::new(0x2001, 0xdb8, 0, 0, 0, 0, 0, 1)
    );
}

#[test]
fn ipv6_parse_embedded_ipv4() {
    assert_eq!(
        Ipv6Addr::parse("::ffff:1.2.3.4").unwrap(),
        Ipv6Addr::new(0, 0, 0, 0, 0, 0xffff, 0x0102, 0x0304)
    );
    assert_eq!(
        Ipv6Addr::parse("1:2:3:4:5:6:77.77.88.88").unwrap(),
        Ipv6Addr::new(1, 2, 3, 4, 5, 6, 77 * 256 + 77, 88 * 256 + 88)
    );
}

#[test]
fn ipv6_rejects_double_elision() {
    assert_eq!(Ipv6Addr::parse("::1::2"), Err(AddrParseError));
    assert!(Ipv6Addr::parse("1::2::3").is_err());
}

#[test]
fn ipv6_rejects_wrong_shape() {
    assert!(Ipv6Addr::parse("1:2:3:4:5:6:7:8:9").is_err());
    assert!(Ipv6Addr::parse("1:2:3:4:5:6:7").is_err());
    assert!(Ipv6Addr::parse("12345::").is_err());
    assert!(Ipv6Addr::parse("1:2:3:4:5:6:7::8").is_err());
    assert!(Ipv6Addr::parse("1.2.3.4::").is_err());
    assert!(Ipv6Addr::parse("::1.2.3.4.5").is_err());
    assert!(Ipv6Addr::parse("::1.2.3.04").is_err());
    assert!(Ipv6Addr::parse("1:2:3:4:5:6:7:1.2.3.4").is_err());
    assert!(Ipv6Addr::parse("").is_err());
    assert!(Ipv6Addr::parse(":").is_err());
    assert!(Ipv6Addr::parse(":::").is_err());
    assert!(Ipv6Addr::parse("g::1").is_err());
}

#[test]
fn ipv6_render_compression() {
    assert_eq!(Ipv6Addr::new(0, 0, 0, 0, 0, 0, 0, 0).to_text(), "::");
    assert_eq!(Ipv6Addr::new(0, 0, 0, 0, 0, 0, 0, 1).to_text(), "::1");
    assert_eq!(Ipv6Addr::new(1, 0, 0, 0, 0, 0, 0, 0).to_text(), "1::");
    assert_eq!(
        Ipv6Addr::new(0x2001, 0xdb8, 0, 0, 0, 0, 0, 1).to_text(),
        "2001:db8::1"
    );
    assert_eq!(
        Ipv6Addr::new(1, 2, 3, 4, 5, 6, 7, 8).to_text(),
        "1:2:3:4:5:6:7:8"
    );
    // a single zero group is not compressed
    assert_eq!(
        Ipv6Addr::new(1, 0, 2, 3, 4, 5, 6, 7).to_text(),
        "1:0:2:3:4:5:6:7"
    );
}

#[test]
fn ipv6_leftmost_longest_tie_break() {
    // two equal-length zero runs: the leftmost is compressed
    assert_eq!(
        Ipv6Addr::new(1, 0, 0, 2, 0, 0, 3, 4).to_text(),
        "1::2:0:0:3:4"
    );
    // the longer run wins even when it comes second
    assert_eq!(
        Ipv6Addr::new(1, 0, 0, 2, 0, 0, 0, 4).to_text(),
        "1:0:0:2::4"
    );
}

#[test]
fn ipv6_mapped_policy() {
    let mapped = Ipv6Addr::new(0, 0, 0, 0, 0, 0xffff, 0x0102, 0x0304);
    assert_eq!(mapped.to_text(), "::ffff:1.2.3.4");
    assert_eq!(mapped.to_hex_text(), "::ffff:102:304");
    assert!(mapped.is_ipv4_mapped());
    // both renderings parse back to the same value
    assert_eq!(Ipv6Addr::parse(&mapped.to_text()).unwrap(), mapped);
    assert_eq!(Ipv6Addr::parse(&mapped.to_hex_text()).unwrap(), mapped);
}

#[test]
fn ipv6_round_trip() {
    for text in [
        "::",
        "::1",
        "1::",
        "2001:db8::1",
        "1:2:3:4:5:6:7:8",
        "1::2:0:0:3:4",
        "fe80::1",
        "::ffff:255.255.255.255",
    ] {
        let a = Ipv6Addr::parse(text).unwrap();
        assert_eq!(a.to_text(), text);
    }
}

#[test]
fn ipv6_classification() {
    assert!(Ipv6Addr::new(0, 0, 0, 0, 0, 0, 0, 1).is_loopback());
    assert!(!Ipv6Addr::new(0, 0, 0, 0, 0, 0, 0, 2).is_loopback());
    assert!(Ipv6Addr::new(0xff02, 0, 0, 0, 0, 0, 0, 1).is_multicast());
    assert!(!Ipv6Addr::new(0xfe80, 0, 0, 0, 0, 0, 0, 1).is_multicast());
    assert!(Ipv6Addr::new(0, 0, 0, 0, 0, 0, 0, 0).is_unspecified());
    assert!(Ipv6Addr::new(0xfe80, 0, 0, 0, 0, 0, 0, 1).is_link_local());
    assert!(Ipv6Addr::new(0xfebf, 0, 0, 0, 0, 0, 0, 1).is_link_local());
    assert!(!Ipv6Addr::new(0xfec0, 0, 0, 0, 0, 0, 0, 1).is_link_local());
}

#[test]
fn ip_union_parse_dispatch() {
    assert_eq!(
        IpAddr::parse("10.0.0.1").unwrap(),
        IpAddr::V4(Ipv4Addr::new(10, 0, 0, 1))
    );
    assert_eq!(
        IpAddr::parse("::1").unwrap(),
        IpAddr::V6(Ipv6Addr::new(0, 0, 0, 0, 0, 0, 0, 1))
    );
    assert!(IpAddr::parse("nonsense").is_err());
}

#[test]
fn ip_union_predicates() {
    let v4 = IpAddr::V4(Ipv4Addr::new(127, 0, 0, 1));
    let v6 = IpAddr::V6(Ipv6Addr::new(0, 0, 0, 0, 0, 0, 0, 1));
    assert!(v4.is_ipv4() && !v4.is_ipv6());
    assert!(v6.is_ipv6() && !v6.is_ipv4());
    assert!(v4.is_loopback() && v6.is_loopback());
    assert!(!v4.is_multicast() && !v6.is_multicast());
    assert!(!v4.is_unspecified() && !v6.is_unspecified());
    assert_eq!(v4.to_text(), "127.0.0.1");
    assert_eq!(v6.to_text(), "::1");
}

#[test]
fn total_order_within_families() {
    let a = Ipv4Addr::new(1, 2, 3, 4);
    let b = Ipv4Addr::new(1, 2, 3, 5);
    let c = Ipv4Addr::new(2, 0, 0, 0);
    assert!(a < b && b < c);
    assert!(!(b < a));
    assert!(a == Ipv4Addr::new(1, 2, 3, 4));

    let x = Ipv6Addr::new(0, 0, 0, 0, 0, 0, 0, 1);
    let y = Ipv6Addr::new(0, 0, 0, 0, 0, 0, 1, 0);
    assert!(x < y);
    assert!(x == Ipv6Addr::new(0, 0, 0, 0, 0, 0, 0, 1));
}

#[test]
fn total_order_v4_before_v6() {
    let v4 = IpAddr::V4(Ipv4Addr::new(255, 255, 255, 255));
    let v6 = IpAddr::V6(Ipv6Addr::new(0, 0, 0, 0, 0, 0, 0, 0));
    assert!(v4 < v6);
    assert!(!(v6 < v4));
}

#[test]
fn from_arrays() {
    assert_eq!(
        Ipv4Addr::from([1, 2, 3, 4]),
        Ipv4Addr::new(1, 2, 3, 4)
    );
    assert_eq!(
        Ipv6Addr::from([1, 2, 3, 4, 5, 6, 7, 8]),
        Ipv6Addr::new(1, 2, 3, 4, 5, 6, 7, 8)
    );
    assert_eq!(
        Ipv6Addr::from([0, 1, 0, 2, 0, 3, 0, 4, 0, 5, 0, 6, 0, 7, 0, 8]),
        Ipv6Addr::new(1, 2, 3, 4, 5, 6, 7, 8)
    );
    assert_eq!(
        IpAddr::from([10u8, 0, 0, 1]),
        IpAddr::V4(Ipv4Addr::new(10, 0, 0, 1))
    );
    assert_eq!(
        IpAddr::from([0u16, 0, 0, 0, 0, 0, 0, 1]),
        IpAddr::V6(Ipv6Addr::new(0, 0, 0, 0, 0, 0, 0, 1))
    );
    assert_eq!(
        IpAddr::from([0u8; 16]),
        IpAddr::V6(Ipv6Addr::new(0, 0, 0, 0, 0, 0, 0, 0))
    );
}

#[test]
fn from_str_impls() {
    let a: Ipv4Addr = "1.2.3.4".parse().unwrap();
    assert_eq!(a, Ipv4Addr::new(1, 2, 3, 4));
    let b: Ipv6Addr = "::1".parse().unwrap();
    assert_eq!(b, Ipv6Addr::new(0, 0, 0, 0, 0, 0, 0, 1));
    let c: IpAddr = "::".parse().unwrap();
    assert_eq!(c, IpAddr::V6(Ipv6Addr::new(0, 0, 0, 0, 0, 0, 0, 0)));
    assert_eq!("x".parse::<Ipv4Addr>(), Err(AddrParseError));
}

fn classify<A: coreplus::net::IpAddr>(a: A) -> (bool, bool, bool) {
    (a.is_loopback(), a.is_multicast(), a.is_unspecified())
}

#[test]
fn capability_trait_on_union() {
    let v4 = IpAddr::V4(Ipv4Addr::new(127, 0, 0, 1));
    assert_eq!(classify(v4), (true, false, false));
}

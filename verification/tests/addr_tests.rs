use std::cell::{Cell, RefCell};

use coreplus::net::addr::{
    GetSocketAddrs, OneOrMany, SocketAddr, SocketAddrV4, SocketAddrV6, ToSocketAddrs,
};
use coreplus::net::ip::{AddrParseError, IpAddr, Ipv4Addr, Ipv6Addr};

#[derive(Debug, PartialEq, Eq)]
struct StubError;

impl From<AddrParseError> for StubError {
    fn from(_: AddrParseError) -> StubError {
        StubError
    }
}

/// A resolver stub that records every call and returns a fixed list.
struct StubResolver {
    calls: Cell<u32>,
    last: RefCell<Option<(String, u16)>>,
    answer: Vec<SocketAddr>,
}

impl StubResolver {
    fn new() -> StubResolver {
        StubResolver { calls: Cell::new(0), last: RefCell::new(None), answer: Vec::new() }
    }
}

impl GetSocketAddrs for StubResolver {
    type Iter = std::vec::IntoIter<SocketAddr>;

    type Error = StubError;

    fn get_socket_addrs(&self, host: &str, port: u16) -> Result<Self::Iter, Self::Error> {
        self.calls.set(self.calls.get() + 1);
        *self.last.borrow_mut() = Some((host.to_string(), port));
        Ok(self.answer.clone().into_iter())
    }
}

#[test]
fn sock4_parse() {
    let sa = SocketAddrV4::parse("127.0.0.1:8080").unwrap();
    assert_eq!(*sa.ip(), Ipv4Addr::new(127, 0, 0, 1));
    assert_eq!(sa.port(), 8080);
}

#[test]
fn sock4_parse_rejects() {
    assert!(SocketAddrV4::parse("127.0.0.1").is_err());
    assert!(SocketAddrV4::parse("127.0.0.1:").is_err());
    assert!(SocketAddrV4::parse("127.0.0.1:65536").is_err());
    assert!(SocketAddrV4::parse("127.0.0.1:123456").is_err());
    assert!(SocketAddrV4::parse("127.0.0.1:80x").is_err());
    assert!(SocketAddrV4::parse("[::1]:80").is_err());
    assert_eq!(SocketAddrV4::parse("1.2.3.04:80"), Err(AddrParseError));
}

#[test]
fn sock4_port_bounds() {
    assert_eq!(SocketAddrV4::parse("1.2.3.4:0").unwrap().port(), 0);
    assert_eq!(SocketAddrV4::parse("1.2.3.4:65535").unwrap().port(), 65535);
    // the port may carry leading zeros
    assert_eq!(SocketAddrV4::parse("1.2.3.4:080").unwrap().port(), 80);
}

#[test]
fn sock6_parse_scenario() {
    // "[2001:db8::1]:8080" parses to the expected fields and renders
    // back to the identical string
    let sa = SocketAddrV6::parse("[2001:db8::1]:8080").unwrap();
    assert_eq!(*sa.ip(), Ipv6Addr::new(0x2001, 0xdb8, 0, 0, 0, 0, 0, 1));
    assert_eq!(sa.port(), 8080);
    assert_eq!(sa.flowinfo(), 0);
    assert_eq!(sa.scope_id(), 0);
    assert_eq!(sa.to_text(), "[2001:db8::1]:8080");
}

#[test]
fn sock6_parse_scope() {
    let sa = SocketAddrV6::parse("[fe80::1%5]:80").unwrap();
    assert_eq!(*sa.ip(), Ipv6Addr::new(0xfe80, 0, 0, 0, 0, 0, 0, 1));
    assert_eq!(sa.scope_id(), 5);
    assert_eq!(sa.port(), 80);
    assert_eq!(sa.to_text(), "[fe80::1%5]:80");
    // a 32-bit scope fits, anything larger does not
    assert_eq!(
        SocketAddrV6::parse("[::1%4294967295]:1").unwrap().scope_id(),
        4294967295
    );
    assert!(SocketAddrV6::parse("[::1%4294967296]:1").is_err());
}

#[test]
fn sock6_parse_rejects() {
    assert!(SocketAddrV6::parse("2001:db8::1:8080").is_err());
    assert!(SocketAddrV6::parse("[2001:db8::1]").is_err());
    assert!(SocketAddrV6::parse("[2001:db8::1]:").is_err());
    assert!(SocketAddrV6::parse("[::1]:65536").is_err());
    assert!(SocketAddrV6::parse("[::1%]:80").is_err());
    assert!(SocketAddrV6::parse("[1.2.3.4]:80").is_err());
}

#[test]
fn sock_union_parse() {
    let v4 = SocketAddr::parse("10.0.0.1:53").unwrap();
    assert!(v4.is_ipv4() && !v4.is_ipv6());
    assert_eq!(v4.port(), 53);
    let v6 = SocketAddr::parse("[::1]:53").unwrap();
    assert!(v6.is_ipv6() && !v6.is_ipv4());
    assert_eq!(v6.ip(), IpAddr::V6(Ipv6Addr::new(0, 0, 0, 0, 0, 0, 0, 1)));
    assert!(SocketAddr::parse("example.invalid:80").is_err());
}

#[test]
fn sock_round_trip() {
    for text in [
        "0.0.0.0:0",
        "127.0.0.1:8080",
        "255.255.255.255:65535",
        "[::]:0",
        "[::1]:53",
        "[2001:db8::1]:8080",
        "[fe80::1%3]:80",
        "[::ffff:1.2.3.4]:80",
    ] {
        let sa = SocketAddr::parse(text).unwrap();
        assert_eq!(sa.to_text(), text);
        assert_eq!(SocketAddr::parse(&sa.to_text()).unwrap(), sa);
    }
}

#[test]
fn sock_accessors() {
    let mut sa = SocketAddrV4::new(Ipv4Addr::new(1, 2, 3, 4), 80);
    sa.set_ip(Ipv4Addr::new(5, 6, 7, 8));
    assert_eq!(*sa.ip(), Ipv4Addr::new(5, 6, 7, 8));
    sa.set_port(8080);
    assert_eq!(sa.port(), 8080);

    let mut sb = SocketAddrV6::new(Ipv6Addr::new(0, 0, 0, 0, 0, 0, 0, 1), 80, 0, 0);
    sb.set_ip(Ipv6Addr::new(0, 0, 0, 0, 0, 0, 0, 2));
    assert_eq!(*sb.ip(), Ipv6Addr::new(0, 0, 0, 0, 0, 0, 0, 2));
    sb.set_port(81);
    assert_eq!(sb.port(), 81);
    sb.set_flowinfo(56);
    assert_eq!(sb.flowinfo(), 56);
    sb.set_scope_id(42);
    assert_eq!(sb.scope_id(), 42);
}

#[test]
fn sock_union_accessors() {
    let mut sa = SocketAddr::new(IpAddr::V4(Ipv4Addr::new(127, 0, 0, 1)), 8080);
    assert_eq!(sa.ip(), IpAddr::V4(Ipv4Addr::new(127, 0, 0, 1)));
    assert_eq!(sa.port(), 8080);
    sa.set_port(1025);
    assert_eq!(sa.port(), 1025);
    // same family keeps the variant
    sa.set_ip(IpAddr::V4(Ipv4Addr::new(10, 10, 0, 1)));
    assert_eq!(sa.ip(), IpAddr::V4(Ipv4Addr::new(10, 10, 0, 1)));
    // switching family keeps the port
    sa.set_ip(IpAddr::V6(Ipv6Addr::new(0, 0, 0, 0, 0, 0, 0, 1)));
    assert!(sa.is_ipv6());
    assert_eq!(sa.port(), 1025);
}

#[test]
fn sock_order_is_total_and_v4_first() {
    // every IPv4 socket address orders before every IPv6 one
    let v4 = SocketAddr::V4(SocketAddrV4::new(Ipv4Addr::new(255, 255, 255, 255), 65535));
    let v6 = SocketAddr::V6(SocketAddrV6::new(Ipv6Addr::new(0, 0, 0, 0, 0, 0, 0, 0), 0, 0, 0));
    assert!(v4 < v6);
    assert!(!(v6 < v4));

    // lexicographic on (ip, port), the ip by big-endian numeric value
    let a = SocketAddrV4::new(Ipv4Addr::new(1, 2, 3, 4), 99);
    let b = SocketAddrV4::new(Ipv4Addr::new(1, 2, 3, 5), 0);
    let c = SocketAddrV4::new(Ipv4Addr::new(1, 2, 3, 5), 1);
    assert!(a < b && b < c);
    assert!(a == SocketAddrV4::new(Ipv4Addr::new(1, 2, 3, 4), 99));

    // IPv6 sockets tie-break through port, flow information, scope
    let ip = Ipv6Addr::new(0, 0, 0, 0, 0, 0, 0, 1);
    let x = SocketAddrV6::new(ip, 1, 0, 9);
    let y = SocketAddrV6::new(ip, 1, 1, 0);
    let z = SocketAddrV6::new(ip, 2, 0, 0);
    assert!(x < y && y < z);
}

#[test]
fn sock_from_impls() {
    let v4 = SocketAddrV4::new(Ipv4Addr::new(1, 2, 3, 4), 80);
    assert_eq!(SocketAddr::from(v4), SocketAddr::V4(v4));
    let v6 = SocketAddrV6::new(Ipv6Addr::new(0, 0, 0, 0, 0, 0, 0, 1), 80, 0, 0);
    assert_eq!(SocketAddr::from(v6), SocketAddr::V6(v6));
    let sa = SocketAddr::from((IpAddr::V4(Ipv4Addr::new(9, 9, 9, 9)), 99));
    assert_eq!(sa, SocketAddr::V4(SocketAddrV4::new(Ipv4Addr::new(9, 9, 9, 9), 99)));
    let sb = SocketAddr::from((Ipv4Addr::new(8, 8, 4, 4), 53));
    assert_eq!(sb, SocketAddr::V4(SocketAddrV4::new(Ipv4Addr::new(8, 8, 4, 4), 53)));
    let sc = SocketAddr::from((Ipv6Addr::new(0, 0, 0, 0, 0, 0, 0, 1), 443));
    assert_eq!(
        sc,
        SocketAddr::V6(SocketAddrV6::new(Ipv6Addr::new(0, 0, 0, 0, 0, 0, 0, 1), 443, 0, 0))
    );
}

#[test]
fn sock_from_str() {
    let sa: SocketAddr = "127.0.0.1:8080".parse().unwrap();
    assert_eq!(
        sa,
        SocketAddr::V4(SocketAddrV4::new(Ipv4Addr::new(127, 0, 0, 1), 8080))
    );
    let sb: SocketAddrV4 = "127.0.0.1:8080".parse().unwrap();
    assert_eq!(sb, SocketAddrV4::new(Ipv4Addr::new(127, 0, 0, 1), 8080));
    let sc: SocketAddrV6 = "[2001:db8::1]:8080".parse().unwrap();
    assert_eq!(
        sc,
        SocketAddrV6::new(Ipv6Addr::new(0x2001, 0xdb8, 0, 0, 0, 0, 0, 1), 8080, 0, 0)
    );
}

#[test]
fn resolution_literal_socket_text() {
    // a literal socket address yields exactly one element and never
    // reaches the resolver
    let stub = StubResolver::new();
    let r = "127.0.0.1:80".to_socket_addrs(&stub).unwrap();
    match r {
        OneOrMany::One(Some(sa)) => {
            assert_eq!(
                sa,
                SocketAddr::V4(SocketAddrV4::new(Ipv4Addr::new(127, 0, 0, 1), 80))
            );
        }
        _ => panic!("expected the single-element path"),
    }
    assert_eq!(stub.calls.get(), 0);
}

#[test]
fn resolution_host_text_reaches_resolver() {
    // a host name is handed to the resolver exactly once, with the
    // split host and port
    let stub = StubResolver::new();
    let r = "example.invalid:80".to_socket_addrs(&stub);
    assert!(matches!(r, Ok(OneOrMany::Many(_))));
    assert_eq!(stub.calls.get(), 1);
    assert_eq!(
        *stub.last.borrow(),
        Some(("example.invalid".to_string(), 80))
    );
}

#[test]
fn resolution_bad_port_is_parse_error() {
    let stub = StubResolver::new();
    assert_eq!(
        "example.invalid:notaport".to_socket_addrs(&stub).err(),
        Some(StubError)
    );
    assert_eq!("no-colon-at-all".to_socket_addrs(&stub).err(), Some(StubError));
    assert_eq!("example.invalid:70000".to_socket_addrs(&stub).err(), Some(StubError));
    assert_eq!(stub.calls.get(), 0);
}

#[test]
fn resolution_ip_pair_is_immediate() {
    // an (address, port) pair becomes a socket address with no
    // resolver call and no error
    let stub = StubResolver::new();
    let r = (Ipv4Addr::new(10, 0, 0, 1), 53u16).to_socket_addrs(&stub).unwrap();
    match r {
        OneOrMany::One(Some(sa)) => {
            assert_eq!(
                sa,
                SocketAddr::V4(SocketAddrV4::new(Ipv4Addr::new(10, 0, 0, 1), 53))
            );
        }
        _ => panic!("expected the single-element path"),
    }
    assert_eq!(stub.calls.get(), 0);
}

#[test]
fn resolution_other_literals() {
    let stub = StubResolver::new();
    let v6 = SocketAddrV6::new(Ipv6Addr::new(0, 0, 0, 0, 0, 0, 0, 1), 443, 0, 0);
    assert!(matches!(
        v6.to_socket_addrs(&stub),
        Ok(OneOrMany::One(Some(SocketAddr::V6(_))))
    ));
    let union = SocketAddr::V6(v6);
    assert!(matches!(
        union.to_socket_addrs(&stub),
        Ok(OneOrMany::One(Some(_)))
    ));
    let pair6 = (Ipv6Addr::new(0, 0, 0, 0, 0, 0, 0, 1), 443u16);
    assert!(matches!(
        pair6.to_socket_addrs(&stub),
        Ok(OneOrMany::One(Some(SocketAddr::V6(_))))
    ));
    let pair_union = (IpAddr::V4(Ipv4Addr::new(1, 1, 1, 1)), 1u16);
    assert!(matches!(
        pair_union.to_socket_addrs(&stub),
        Ok(OneOrMany::One(Some(SocketAddr::V4(_))))
    ));
    assert_eq!(stub.calls.get(), 0);
}

#[test]
fn resolution_host_port_pair() {
    // a (host, port) pair whose host is a literal address never
    // reaches the resolver; any other host does
    let stub = StubResolver::new();
    let r = ("127.0.0.1", 80u16).to_socket_addrs(&stub).unwrap();
    assert!(matches!(r, OneOrMany::One(Some(SocketAddr::V4(_)))));
    let r6 = ("::1", 80u16).to_socket_addrs(&stub).unwrap();
    assert!(matches!(r6, OneOrMany::One(Some(SocketAddr::V6(_)))));
    assert_eq!(stub.calls.get(), 0);
    let rh = ("example.invalid", 80u16).to_socket_addrs(&stub);
    assert!(matches!(rh, Ok(OneOrMany::Many(_))));
    assert_eq!(stub.calls.get(), 1);
    assert_eq!(
        *stub.last.borrow(),
        Some(("example.invalid".to_string(), 80))
    );
}

#[test]
fn resolution_through_reference() {
    let stub = StubResolver::new();
    let sa = SocketAddr::V4(SocketAddrV4::new(Ipv4Addr::new(8, 8, 8, 8), 53));
    let r = (&sa).to_socket_addrs(&stub).unwrap();
    assert!(matches!(r, OneOrMany::One(Some(_))));
    assert_eq!(stub.calls.get(), 0);
}

#[test]
fn one_or_many_one() {
    let sa = SocketAddr::V4(SocketAddrV4::new(Ipv4Addr::new(1, 2, 3, 4), 5));
    let one: OneOrMany<std::vec::IntoIter<SocketAddr>> = OneOrMany::one(sa);
    match one {
        OneOrMany::One(Some(got)) => assert_eq!(got, sa),
        _ => panic!("one() must hold exactly the given address"),
    }
}

#[test]
fn resolver_answer_passes_through() {
    let mut stub = StubResolver::new();
    let sa = SocketAddr::V4(SocketAddrV4::new(Ipv4Addr::new(93, 184, 216, 34), 80));
    stub.answer.push(sa);
    let r = "example.invalid:80".to_socket_addrs(&stub).unwrap();
    match r {
        OneOrMany::Many(it) => {
            let got: Vec<SocketAddr> = it.collect();
            assert_eq!(got, vec![sa]);
        }
        _ => panic!("expected the resolver path"),
    }
}

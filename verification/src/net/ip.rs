//! IP address value types.
//!
//! `Ipv4Addr` and `Ipv6Addr` are plain values: every bit pattern is a
//! valid address, so construction cannot fail.  `IpAddr` is the tagged
//! union of the two.  The view of an address is its sequence of groups —
//! four octets for IPv4, eight 16-bit segments for IPv6 — in big-endian
//! significance order.

use vstd::prelude::*;

use crate::net::parse::{ipv6_prefix, octets_scan, spec_parse_ipv4, spec_parse_ipv6};
use crate::net::text::{
    best_run_exec, ipv4_text, ipv6_hex_text, ipv6_text, is_v4_mapped_segs, octets_text, push_dec,
    push_segs,
};
use core::cmp::Ordering;
use vstd::std_specs::cmp::PartialOrdSpec;
use vstd::string::{StrSliceExecFns, StringExecFns};

verus! {

/// Failure to parse an IP or socket address from text.
///
/// The grammar is validated structurally; every malformed input maps to
/// this one error value, with no sub-reason recorded.
#[derive(Clone, Copy, PartialEq, Eq, Structural, Debug)]
pub struct AddrParseError;

/// An IPv4 address: four octets in big-endian significance order.
#[derive(Clone, Copy, PartialEq, Eq, Structural, Hash, Ord, Debug)]
pub struct Ipv4Addr {
    /// Most significant octet.
    pub a: u8,
    /// Second octet.
    pub b: u8,
    /// Third octet.
    pub c: u8,
    /// Least significant octet.
    pub d: u8,
}

/// An IPv6 address: eight 16-bit segments in big-endian significance order.
#[derive(Clone, Copy, PartialEq, Eq, Structural, Hash, Ord, Debug)]
pub struct Ipv6Addr {
    /// Most significant segment.
    pub s0: u16,
    /// Second segment.
    pub s1: u16,
    /// Third segment.
    pub s2: u16,
    /// Fourth segment.
    pub s3: u16,
    /// Fifth segment.
    pub s4: u16,
    /// Sixth segment.
    pub s5: u16,
    /// Seventh segment.
    pub s6: u16,
    /// Least significant segment.
    pub s7: u16,
}

/// An IP address, either IPv4 or IPv6.
#[derive(Clone, Copy, PartialEq, Eq, Structural, Hash, Ord, Debug)]
pub enum IpAddr {
    /// An IPv4 address.
    V4(Ipv4Addr),
    /// An IPv6 address.
    V6(Ipv6Addr),
}

impl View for Ipv4Addr {
    type V = Seq<u8>;

    open spec fn view(&self) -> Seq<u8> {
        seq![self.a, self.b, self.c, self.d]
    }
}

impl View for Ipv6Addr {
    type V = Seq<u16>;

    open spec fn view(&self) -> Seq<u16> {
        seq![self.s0, self.s1, self.s2, self.s3, self.s4, self.s5, self.s6, self.s7]
    }
}

impl Ipv4Addr {
    /// Creates an IPv4 address from its four octets.
    pub fn new(a: u8, b: u8, c: u8, d: u8) -> (r: Ipv4Addr)
        ensures
            r@ == seq![a, b, c, d],
    {
        Ipv4Addr { a, b, c, d }
    }

    /// The four octets, most significant first.
    pub fn octets(&self) -> (r: [u8; 4])
        ensures
            r@ == self@,
    {
        let r = [self.a, self.b, self.c, self.d];
        proof {
            assert(r@ =~= self@);
        }
        r
    }

    /// Whether this is a loopback address (`127.0.0.0/8`).
    pub fn is_loopback(&self) -> (r: bool)
        ensures
            r == (self@[0] == 127),
    {
        self.a == 127
    }

    /// Whether this is a multicast address (`224.0.0.0/4`).
    pub fn is_multicast(&self) -> (r: bool)
        ensures
            r == (224 <= self@[0] <= 239),
    {
        224 <= self.a && self.a <= 239
    }

    /// Whether this is the unspecified address `0.0.0.0`.
    pub fn is_unspecified(&self) -> (r: bool)
        ensures
            r == (self@ =~= seq![0u8, 0u8, 0u8, 0u8]),
    {
        let r = self.a == 0 && self.b == 0 && self.c == 0 && self.d == 0;
        proof {
            if r {
                assert(self@ =~= seq![0u8, 0u8, 0u8, 0u8]);
            }
        }
        r
    }

    /// Whether this is a link-local address (`169.254.0.0/16`).
    pub fn is_link_local(&self) -> (r: bool)
        ensures
            r == (self@[0] == 169 && self@[1] == 254),
    {
        self.a == 169 && self.b == 254
    }

    /// Parses a dotted-quad IPv4 address, accepting exactly the strings
    /// of the IPv4 grammar.
    pub fn parse(s: &str) -> (r: Result<Ipv4Addr, AddrParseError>)
        ensures
            match r {
                Ok(a) => spec_parse_ipv4(s@) == Some(a@),
                Err(_) => spec_parse_ipv4(s@) is None,
            },
    {
        proof {
            assert(s@.skip(0) =~= s@);
        }
        match octets_scan(s, 0, 4) {
            Some((o, j)) => {
                if j == s.unicode_len() {
                    let a = Ipv4Addr::new(o[0], o[1], o[2], o[3]);
                    proof {
                        assert(a@ =~= o@);
                    }
                    Ok(a)
                } else {
                    Err(AddrParseError)
                }
            },
            None => Err(AddrParseError),
        }
    }

    /// The canonical dotted-quad text of this address.
    pub fn to_text(&self) -> (r: String)
        ensures
            r@ == ipv4_text(self@),
    {
        let mut out = String::new();
        push_dec(&mut out, self.a as u64);
        out.append(".");
        push_dec(&mut out, self.b as u64);
        out.append(".");
        push_dec(&mut out, self.c as u64);
        out.append(".");
        push_dec(&mut out, self.d as u64);
        proof {
            reveal_strlit(".");
            assert((".")@ =~= seq!['.']);
            let o1 = seq![self.b, self.c, self.d];
            let o2 = seq![self.c, self.d];
            let o3 = seq![self.d];
            assert(self@.drop_first() =~= o1);
            assert(o1.drop_first() =~= o2);
            assert(o2.drop_first() =~= o3);
            assert(octets_text(o3) == crate::net::text::dec_text(self.d as int));
            assert(octets_text(o2) == crate::net::text::dec_text(self.c as int) + seq!['.']
                + octets_text(o3));
            assert(octets_text(o1) == crate::net::text::dec_text(self.b as int) + seq!['.']
                + octets_text(o2));
            assert(octets_text(self@) == crate::net::text::dec_text(self.a as int) + seq!['.']
                + octets_text(o1));
            assert(out@ =~= octets_text(self@));
        }
        out
    }
}

impl Ipv6Addr {
    /// Creates an IPv6 address from its eight 16-bit segments.
    pub fn new(s0: u16, s1: u16, s2: u16, s3: u16, s4: u16, s5: u16, s6: u16, s7: u16) -> (r:
        Ipv6Addr)
        ensures
            r@ == seq![s0, s1, s2, s3, s4, s5, s6, s7],
    {
        Ipv6Addr { s0, s1, s2, s3, s4, s5, s6, s7 }
    }

    /// The eight segments, most significant first.
    pub fn segments(&self) -> (r: [u16; 8])
        ensures
            r@ == self@,
    {
        let r = [self.s0, self.s1, self.s2, self.s3, self.s4, self.s5, self.s6, self.s7];
        proof {
            assert(r@ =~= self@);
        }
        r
    }

    /// Whether this is the loopback address `::1`.
    pub fn is_loopback(&self) -> (r: bool)
        ensures
            r == (self@ =~= seq![0u16, 0u16, 0u16, 0u16, 0u16, 0u16, 0u16, 1u16]),
    {
        let r = self.s0 == 0 && self.s1 == 0 && self.s2 == 0 && self.s3 == 0 && self.s4 == 0
            && self.s5 == 0 && self.s6 == 0 && self.s7 == 1;
        proof {
            if r {
                assert(self@ =~= seq![0u16, 0u16, 0u16, 0u16, 0u16, 0u16, 0u16, 1u16]);
            }
        }
        r
    }

    /// Whether this is a multicast address (`ff00::/8`).
    pub fn is_multicast(&self) -> (r: bool)
        ensures
            r == (self@[0] >= 0xff00),
    {
        self.s0 >= 0xff00
    }

    /// Whether this is the unspecified address `::`.
    pub fn is_unspecified(&self) -> (r: bool)
        ensures
            r == (self@ =~= seq![0u16, 0u16, 0u16, 0u16, 0u16, 0u16, 0u16, 0u16]),
    {
        let r = self.s0 == 0 && self.s1 == 0 && self.s2 == 0 && self.s3 == 0 && self.s4 == 0
            && self.s5 == 0 && self.s6 == 0 && self.s7 == 0;
        proof {
            if r {
                assert(self@ =~= seq![0u16, 0u16, 0u16, 0u16, 0u16, 0u16, 0u16, 0u16]);
            }
        }
        r
    }

    /// Whether this is a unicast link-local address (`fe80::/10`).
    pub fn is_link_local(&self) -> (r: bool)
        ensures
            r == (0xfe80 <= self@[0] <= 0xfebf),
    {
        0xfe80 <= self.s0 && self.s0 <= 0xfebf
    }

    /// Whether the upper 96 bits match the IPv4-mapped prefix `::ffff:0:0/96`.
    pub fn is_ipv4_mapped(&self) -> (r: bool)
        ensures
            r == (self@[0] == 0 && self@[1] == 0 && self@[2] == 0 && self@[3] == 0 && self@[4] == 0
                && self@[5] == 0xffff),
    {
        self.s0 == 0 && self.s1 == 0 && self.s2 == 0 && self.s3 == 0 && self.s4 == 0 && self.s5
            == 0xffff
    }

    /// Parses an IPv6 address, accepting exactly the strings of the
    /// IPv6 grammar, `::` elision and embedded IPv4 form included.
    pub fn parse(s: &str) -> (r: Result<Ipv6Addr, AddrParseError>)
        ensures
            match r {
                Ok(a) => spec_parse_ipv6(s@) == Some(a@),
                Err(_) => spec_parse_ipv6(s@) is None,
            },
    {
        proof {
            assert(s@.skip(0) =~= s@);
        }
        match ipv6_prefix(s, 0) {
            Some((g, j)) => {
                if j == s.unicode_len() {
                    let a = Ipv6Addr::new(g[0], g[1], g[2], g[3], g[4], g[5], g[6], g[7]);
                    proof {
                        assert(a@ =~= g@);
                    }
                    Ok(a)
                } else {
                    Err(AddrParseError)
                }
            },
            None => Err(AddrParseError),
        }
    }

    /// The canonical hex-groups text of this address: lowercase hex
    /// groups joined by `:`, the leftmost longest zero run of length at
    /// least two elided as `::`.
    pub fn to_hex_text(&self) -> (r: String)
        ensures
            r@ == ipv6_hex_text(self@),
    {
        let arr = self.segments();
        let (b, rl) = best_run_exec(&arr);
        let mut out = String::new();
        if rl >= 2 {
            push_segs(&mut out, &arr, 0, b);
            out.append("::");
            push_segs(&mut out, &arr, b + rl, 8);
            proof {
                reveal_strlit("::");
                assert(("::")@ =~= seq![':', ':']);
                assert(arr@.subrange(0, b as int) =~= self@.take(b as int));
                assert(arr@.subrange(b as int + rl as int, 8) =~= self@.skip(b as int + rl as int));
                assert(out@ =~= ipv6_hex_text(self@));
            }
        } else {
            push_segs(&mut out, &arr, 0, 8);
            proof {
                assert(arr@.subrange(0, 8) =~= self@);
                assert(out@ =~= ipv6_hex_text(self@));
            }
        }
        out
    }

    /// The canonical text of this address in the community-standard
    /// policy: an IPv4-mapped address renders its low 32 bits in dotted
    /// form, every other address in hex groups.
    pub fn to_text(&self) -> (r: String)
        ensures
            r@ == ipv6_text(self@, true),
    {
        if self.is_ipv4_mapped() {
            let mut out = String::new();
            out.append("::ffff:");
            push_dec(&mut out, (self.s6 / 256) as u64);
            out.append(".");
            push_dec(&mut out, (self.s6 % 256) as u64);
            out.append(".");
            push_dec(&mut out, (self.s7 / 256) as u64);
            out.append(".");
            push_dec(&mut out, (self.s7 % 256) as u64);
            proof {
                reveal_strlit("::ffff:");
                reveal_strlit(".");
                assert(("::ffff:")@ =~= seq![':', ':', 'f', 'f', 'f', 'f', ':']);
                assert((".")@ =~= seq!['.']);
                let m = crate::net::text::mapped_octets(self@);
                let o1 = seq![m[1], m[2], m[3]];
                let o2 = seq![m[2], m[3]];
                let o3 = seq![m[3]];
                assert(m.drop_first() =~= o1);
                assert(o1.drop_first() =~= o2);
                assert(o2.drop_first() =~= o3);
                assert(octets_text(o3) == crate::net::text::dec_text(m[3] as int));
                assert(octets_text(o2) == crate::net::text::dec_text(m[2] as int) + seq!['.']
                    + octets_text(o3));
                assert(octets_text(o1) == crate::net::text::dec_text(m[1] as int) + seq!['.']
                    + octets_text(o2));
                assert(octets_text(m) == crate::net::text::dec_text(m[0] as int) + seq!['.']
                    + octets_text(o1));
                assert(is_v4_mapped_segs(self@));
                assert(out@ =~= ipv6_text(self@, true));
            }
            out
        } else {
            let r = self.to_hex_text();
            proof {
                assert(!is_v4_mapped_segs(self@));
            }
            r
        }
    }
}

impl IpAddr {
    /// Whether this is an IPv4 address.
    pub fn is_ipv4(&self) -> (r: bool)
        ensures
            r == (self matches IpAddr::V4(_)),
    {
        matches!(self, IpAddr::V4(_))
    }

    /// Whether this is an IPv6 address.
    pub fn is_ipv6(&self) -> (r: bool)
        ensures
            r == (self matches IpAddr::V6(_)),
    {
        matches!(self, IpAddr::V6(_))
    }

    /// Whether the address is a loopback address of its family.
    pub fn is_loopback(&self) -> (r: bool)
        ensures
            r == (match *self {
                IpAddr::V4(a) => a@[0] == 127,
                IpAddr::V6(a) => a@ =~= seq![0u16, 0u16, 0u16, 0u16, 0u16, 0u16, 0u16, 1u16],
            }),
    {
        match self {
            IpAddr::V4(a) => a.is_loopback(),
            IpAddr::V6(a) => a.is_loopback(),
        }
    }

    /// Whether the address is a multicast address of its family.
    pub fn is_multicast(&self) -> (r: bool)
        ensures
            r == (match *self {
                IpAddr::V4(a) => 224 <= a@[0] <= 239,
                IpAddr::V6(a) => a@[0] >= 0xff00,
            }),
    {
        match self {
            IpAddr::V4(a) => a.is_multicast(),
            IpAddr::V6(a) => a.is_multicast(),
        }
    }

    /// Whether the address is the unspecified address of its family.
    pub fn is_unspecified(&self) -> (r: bool)
        ensures
            r == (match *self {
                IpAddr::V4(a) => a@ =~= seq![0u8, 0u8, 0u8, 0u8],
                IpAddr::V6(a) => a@ =~= seq![0u16, 0u16, 0u16, 0u16, 0u16, 0u16, 0u16, 0u16],
            }),
    {
        match self {
            IpAddr::V4(a) => a.is_unspecified(),
            IpAddr::V6(a) => a.is_unspecified(),
        }
    }

    /// Parses an IP address of either family, trying the IPv4 grammar
    /// first and the IPv6 grammar second.
    pub fn parse(s: &str) -> (r: Result<IpAddr, AddrParseError>)
        ensures
            match r {
                Ok(IpAddr::V4(a)) => spec_parse_ipv4(s@) == Some(a@),
                Ok(IpAddr::V6(a)) => spec_parse_ipv4(s@) is None && spec_parse_ipv6(s@) == Some(
                    a@,
                ),
                Err(_) => spec_parse_ipv4(s@) is None && spec_parse_ipv6(s@) is None,
            },
    {
        match Ipv4Addr::parse(s) {
            Ok(a) => Ok(IpAddr::V4(a)),
            Err(_) => match Ipv6Addr::parse(s) {
                Ok(a) => Ok(IpAddr::V6(a)),
                Err(_) => Err(AddrParseError),
            },
        }
    }

    /// The canonical text of the address, in its family's form.
    pub fn to_text(&self) -> (r: String)
        ensures
            r@ == (match *self {
                IpAddr::V4(a) => ipv4_text(a@),
                IpAddr::V6(a) => ipv6_text(a@, true),
            }),
    {
        match self {
            IpAddr::V4(a) => a.to_text(),
            IpAddr::V6(a) => a.to_text(),
        }
    }
}

/// The numeric value of an IPv4 address, big-endian.
pub open spec fn ip4_num(x: Ipv4Addr) -> int {
    x.a as int * 0x1000000 + x.b as int * 0x10000 + x.c as int * 0x100 + x.d as int
}

/// The numeric value of an IPv6 address, big-endian.
pub open spec fn ip6_num(x: Ipv6Addr) -> int {
    ((((((x.s0 as int * 0x10000 + x.s1 as int) * 0x10000 + x.s2 as int) * 0x10000 + x.s3 as int)
        * 0x10000 + x.s4 as int) * 0x10000 + x.s5 as int) * 0x10000 + x.s6 as int) * 0x10000
        + x.s7 as int
}

impl vstd::std_specs::cmp::PartialOrdSpecImpl for Ipv4Addr {
    open spec fn obeys_partial_cmp_spec() -> bool {
        true
    }

    open spec fn partial_cmp_spec(&self, other: &Ipv4Addr) -> Option<Ordering> {
        if self.a != other.a {
            Some(
                if self.a < other.a {
                    Ordering::Less
                } else {
                    Ordering::Greater
                },
            )
        } else if self.b != other.b {
            Some(
                if self.b < other.b {
                    Ordering::Less
                } else {
                    Ordering::Greater
                },
            )
        } else if self.c != other.c {
            Some(
                if self.c < other.c {
                    Ordering::Less
                } else {
                    Ordering::Greater
                },
            )
        } else if self.d != other.d {
            Some(
                if self.d < other.d {
                    Ordering::Less
                } else {
                    Ordering::Greater
                },
            )
        } else {
            Some(Ordering::Equal)
        }
    }
}

impl PartialOrd for Ipv4Addr {
    fn partial_cmp(&self, other: &Ipv4Addr) -> Option<Ordering> {
        if self.a != other.a {
            Some(
                if self.a < other.a {
                    Ordering::Less
                } else {
                    Ordering::Greater
                },
            )
        } else if self.b != other.b {
            Some(
                if self.b < other.b {
                    Ordering::Less
                } else {
                    Ordering::Greater
                },
            )
        } else if self.c != other.c {
            Some(
                if self.c < other.c {
                    Ordering::Less
                } else {
                    Ordering::Greater
                },
            )
        } else if self.d != other.d {
            Some(
                if self.d < other.d {
                    Ordering::Less
                } else {
                    Ordering::Greater
                },
            )
        } else {
            Some(Ordering::Equal)
        }
    }
}

impl vstd::std_specs::cmp::PartialOrdSpecImpl for Ipv6Addr {
    open spec fn obeys_partial_cmp_spec() -> bool {
        true
    }

    open spec fn partial_cmp_spec(&self, other: &Ipv6Addr) -> Option<Ordering> {
        if self.s0 != other.s0 {
            Some(
                if self.s0 < other.s0 {
                    Ordering::Less
                } else {
                    Ordering::Greater
                },
            )
        } else if self.s1 != other.s1 {
            Some(
                if self.s1 < other.s1 {
                    Ordering::Less
                } else {
                    Ordering::Greater
                },
            )
        } else if self.s2 != other.s2 {
            Some(
                if self.s2 < other.s2 {
                    Ordering::Less
                } else {
                    Ordering::Greater
                },
            )
        } else if self.s3 != other.s3 {
            Some(
                if self.s3 < other.s3 {
                    Ordering::Less
                } else {
                    Ordering::Greater
                },
            )
        } else if self.s4 != other.s4 {
            Some(
                if self.s4 < other.s4 {
                    Ordering::Less
                } else {
                    Ordering::Greater
                },
            )
        } else if self.s5 != other.s5 {
            Some(
                if self.s5 < other.s5 {
                    Ordering::Less
                } else {
                    Ordering::Greater
                },
            )
        } else if self.s6 != other.s6 {
            Some(
                if self.s6 < other.s6 {
                    Ordering::Less
                } else {
                    Ordering::Greater
                },
            )
        } else if self.s7 != other.s7 {
            Some(
                if self.s7 < other.s7 {
                    Ordering::Less
                } else {
                    Ordering::Greater
                },
            )
        } else {
            Some(Ordering::Equal)
        }
    }
}

impl PartialOrd for Ipv6Addr {
    fn partial_cmp(&self, other: &Ipv6Addr) -> Option<Ordering> {
        if self.s0 != other.s0 {
            Some(
                if self.s0 < other.s0 {
                    Ordering::Less
                } else {
                    Ordering::Greater
                },
            )
        } else if self.s1 != other.s1 {
            Some(
                if self.s1 < other.s1 {
                    Ordering::Less
                } else {
                    Ordering::Greater
                },
            )
        } else if self.s2 != other.s2 {
            Some(
                if self.s2 < other.s2 {
                    Ordering::Less
                } else {
                    Ordering::Greater
                },
            )
        } else if self.s3 != other.s3 {
            Some(
                if self.s3 < other.s3 {
                    Ordering::Less
                } else {
                    Ordering::Greater
                },
            )
        } else if self.s4 != other.s4 {
            Some(
                if self.s4 < other.s4 {
                    Ordering::Less
                } else {
                    Ordering::Greater
                },
            )
        } else if self.s5 != other.s5 {
            Some(
                if self.s5 < other.s5 {
                    Ordering::Less
                } else {
                    Ordering::Greater
                },
            )
        } else if self.s6 != other.s6 {
            Some(
                if self.s6 < other.s6 {
                    Ordering::Less
                } else {
                    Ordering::Greater
                },
            )
        } else if self.s7 != other.s7 {
            Some(
                if self.s7 < other.s7 {
                    Ordering::Less
                } else {
                    Ordering::Greater
                },
            )
        } else {
            Some(Ordering::Equal)
        }
    }
}

impl vstd::std_specs::cmp::PartialOrdSpecImpl for IpAddr {
    open spec fn obeys_partial_cmp_spec() -> bool {
        true
    }

    open spec fn partial_cmp_spec(&self, other: &IpAddr) -> Option<Ordering> {
        match (self, other) {
            (IpAddr::V4(x), IpAddr::V4(y)) => PartialOrdSpec::partial_cmp_spec(x, y),
            (IpAddr::V4(_), IpAddr::V6(_)) => Some(Ordering::Less),
            (IpAddr::V6(_), IpAddr::V4(_)) => Some(Ordering::Greater),
            (IpAddr::V6(x), IpAddr::V6(y)) => PartialOrdSpec::partial_cmp_spec(x, y),
        }
    }
}

impl PartialOrd for IpAddr {
    fn partial_cmp(&self, other: &IpAddr) -> Option<Ordering> {
        match (self, other) {
            (IpAddr::V4(x), IpAddr::V4(y)) => x.partial_cmp(y),
            (IpAddr::V4(_), IpAddr::V6(_)) => Some(Ordering::Less),
            (IpAddr::V6(_), IpAddr::V4(_)) => Some(Ordering::Greater),
            (IpAddr::V6(x), IpAddr::V6(y)) => x.partial_cmp(y),
        }
    }
}

/// The IPv4 order is total and agrees with big-endian numeric order:
/// exactly one of less, equal and greater holds of any two addresses,
/// by their numeric values.
pub proof fn lemma_ipv4_order_total(x: Ipv4Addr, y: Ipv4Addr)
    ensures
        x.partial_cmp_spec(&y) is Some,
        (x.partial_cmp_spec(&y) == Some(Ordering::Equal)) <==> x == y,
        (x.partial_cmp_spec(&y) == Some(Ordering::Less)) <==> ip4_num(x) < ip4_num(y),
        (x.partial_cmp_spec(&y) == Some(Ordering::Greater)) <==> ip4_num(x) > ip4_num(y),
{
}

/// The IPv6 order is total and agrees with big-endian numeric order.
pub proof fn lemma_ipv6_order_total(x: Ipv6Addr, y: Ipv6Addr)
    ensures
        x.partial_cmp_spec(&y) is Some,
        (x.partial_cmp_spec(&y) == Some(Ordering::Equal)) <==> x == y,
        (x.partial_cmp_spec(&y) == Some(Ordering::Less)) <==> ip6_num(x) < ip6_num(y),
        (x.partial_cmp_spec(&y) == Some(Ordering::Greater)) <==> ip6_num(x) > ip6_num(y),
{
}

/// The union order is total: every IPv4 address comes before every
/// IPv6 address, and within a family the numeric order applies.
pub proof fn lemma_ip_order_total(x: IpAddr, y: IpAddr)
    ensures
        x.partial_cmp_spec(&y) is Some,
        (x.partial_cmp_spec(&y) == Some(Ordering::Equal)) <==> x == y,
        (x matches IpAddr::V4(_) && y matches IpAddr::V6(_)) ==> x.partial_cmp_spec(&y) == Some(
            Ordering::Less,
        ),
        (x matches IpAddr::V6(_) && y matches IpAddr::V4(_)) ==> x.partial_cmp_spec(&y) == Some(
            Ordering::Greater,
        ),
        (match (x, y) {
            (IpAddr::V4(a), IpAddr::V4(b)) => x.partial_cmp_spec(&y) == a.partial_cmp_spec(&b),
            (IpAddr::V6(a), IpAddr::V6(b)) => x.partial_cmp_spec(&y) == a.partial_cmp_spec(&b),
            _ => true,
        }),
{
    match (x, y) {
        (IpAddr::V4(a), IpAddr::V4(b)) => {
            lemma_ipv4_order_total(a, b);
        },
        (IpAddr::V6(a), IpAddr::V6(b)) => {
            lemma_ipv6_order_total(a, b);
        },
        _ => {},
    }
}

impl vstd::std_specs::convert::FromSpecImpl<[u8; 4]> for Ipv4Addr {
    open spec fn obeys_from_spec() -> bool {
        true
    }

    open spec fn from_spec(v: [u8; 4]) -> Ipv4Addr {
        Ipv4Addr { a: v[0], b: v[1], c: v[2], d: v[3] }
    }
}

impl From<[u8; 4]> for Ipv4Addr {
    /// The four octets, most significant first.
    fn from(v: [u8; 4]) -> Ipv4Addr {
        Ipv4Addr { a: v[0], b: v[1], c: v[2], d: v[3] }
    }
}

impl vstd::std_specs::convert::FromSpecImpl<[u16; 8]> for Ipv6Addr {
    open spec fn obeys_from_spec() -> bool {
        true
    }

    open spec fn from_spec(v: [u16; 8]) -> Ipv6Addr {
        Ipv6Addr {
            s0: v[0],
            s1: v[1],
            s2: v[2],
            s3: v[3],
            s4: v[4],
            s5: v[5],
            s6: v[6],
            s7: v[7],
        }
    }
}

impl From<[u16; 8]> for Ipv6Addr {
    /// The eight segments, most significant first.
    fn from(v: [u16; 8]) -> Ipv6Addr {
        Ipv6Addr {
            s0: v[0],
            s1: v[1],
            s2: v[2],
            s3: v[3],
            s4: v[4],
            s5: v[5],
            s6: v[6],
            s7: v[7],
        }
    }
}

impl vstd::std_specs::convert::FromSpecImpl<[u8; 16]> for Ipv6Addr {
    open spec fn obeys_from_spec() -> bool {
        true
    }

    open spec fn from_spec(v: [u8; 16]) -> Ipv6Addr {
        Ipv6Addr {
            s0: crate::net::parse::seg_of(v[0], v[1]),
            s1: crate::net::parse::seg_of(v[2], v[3]),
            s2: crate::net::parse::seg_of(v[4], v[5]),
            s3: crate::net::parse::seg_of(v[6], v[7]),
            s4: crate::net::parse::seg_of(v[8], v[9]),
            s5: crate::net::parse::seg_of(v[10], v[11]),
            s6: crate::net::parse::seg_of(v[12], v[13]),
            s7: crate::net::parse::seg_of(v[14], v[15]),
        }
    }
}

impl From<[u8; 16]> for Ipv6Addr {
    /// The sixteen octets, most significant first, two per segment.
    fn from(v: [u8; 16]) -> Ipv6Addr {
        Ipv6Addr {
            s0: v[0] as u16 * 256 + v[1] as u16,
            s1: v[2] as u16 * 256 + v[3] as u16,
            s2: v[4] as u16 * 256 + v[5] as u16,
            s3: v[6] as u16 * 256 + v[7] as u16,
            s4: v[8] as u16 * 256 + v[9] as u16,
            s5: v[10] as u16 * 256 + v[11] as u16,
            s6: v[12] as u16 * 256 + v[13] as u16,
            s7: v[14] as u16 * 256 + v[15] as u16,
        }
    }
}

impl vstd::std_specs::convert::FromSpecImpl<Ipv4Addr> for IpAddr {
    open spec fn obeys_from_spec() -> bool {
        true
    }

    open spec fn from_spec(v: Ipv4Addr) -> IpAddr {
        IpAddr::V4(v)
    }
}

impl From<Ipv4Addr> for IpAddr {
    /// Wraps the address in the IPv4 variant.
    fn from(v: Ipv4Addr) -> IpAddr {
        IpAddr::V4(v)
    }
}

impl vstd::std_specs::convert::FromSpecImpl<Ipv6Addr> for IpAddr {
    open spec fn obeys_from_spec() -> bool {
        true
    }

    open spec fn from_spec(v: Ipv6Addr) -> IpAddr {
        IpAddr::V6(v)
    }
}

impl From<Ipv6Addr> for IpAddr {
    /// Wraps the address in the IPv6 variant.
    fn from(v: Ipv6Addr) -> IpAddr {
        IpAddr::V6(v)
    }
}

impl vstd::std_specs::convert::FromSpecImpl<[u8; 4]> for IpAddr {
    open spec fn obeys_from_spec() -> bool {
        true
    }

    open spec fn from_spec(v: [u8; 4]) -> IpAddr {
        IpAddr::V4(Ipv4Addr { a: v[0], b: v[1], c: v[2], d: v[3] })
    }
}

impl From<[u8; 4]> for IpAddr {
    /// An IPv4 address from its four octets.
    fn from(v: [u8; 4]) -> IpAddr {
        IpAddr::V4(Ipv4Addr::from(v))
    }
}

impl vstd::std_specs::convert::FromSpecImpl<[u8; 16]> for IpAddr {
    open spec fn obeys_from_spec() -> bool {
        true
    }

    open spec fn from_spec(v: [u8; 16]) -> IpAddr {
        IpAddr::V6(<Ipv6Addr as vstd::std_specs::convert::FromSpec<[u8; 16]>>::from_spec(v))
    }
}

impl From<[u8; 16]> for IpAddr {
    /// An IPv6 address from its sixteen octets.
    fn from(v: [u8; 16]) -> IpAddr {
        IpAddr::V6(Ipv6Addr::from(v))
    }
}

impl vstd::std_specs::convert::FromSpecImpl<[u16; 8]> for IpAddr {
    open spec fn obeys_from_spec() -> bool {
        true
    }

    open spec fn from_spec(v: [u16; 8]) -> IpAddr {
        IpAddr::V6(
            Ipv6Addr {
                s0: v[0],
                s1: v[1],
                s2: v[2],
                s3: v[3],
                s4: v[4],
                s5: v[5],
                s6: v[6],
                s7: v[7],
            },
        )
    }
}

impl From<[u16; 8]> for IpAddr {
    /// An IPv6 address from its eight segments.
    fn from(v: [u16; 8]) -> IpAddr {
        IpAddr::V6(Ipv6Addr::from(v))
    }
}

impl core::str::FromStr for Ipv4Addr {
    type Err = AddrParseError;

    fn from_str(s: &str) -> Result<Ipv4Addr, AddrParseError> {
        Ipv4Addr::parse(s)
    }
}

impl core::str::FromStr for Ipv6Addr {
    type Err = AddrParseError;

    fn from_str(s: &str) -> Result<Ipv6Addr, AddrParseError> {
        Ipv6Addr::parse(s)
    }
}

impl core::str::FromStr for IpAddr {
    type Err = AddrParseError;

    fn from_str(s: &str) -> Result<IpAddr, AddrParseError> {
        IpAddr::parse(s)
    }
}

impl crate::net::IpAddr for IpAddr {
    fn is_ipv4(&self) -> bool {
        (*self).is_ipv4()
    }

    fn is_ipv6(&self) -> bool {
        (*self).is_ipv6()
    }

    fn is_loopback(&self) -> bool {
        (*self).is_loopback()
    }

    fn is_multicast(&self) -> bool {
        (*self).is_multicast()
    }

    fn is_unspecified(&self) -> bool {
        (*self).is_unspecified()
    }
}

/// Round trip at the union type: the canonical text of an address,
/// parsed back through the family dispatch that tries IPv4 first,
/// yields the address itself.
pub proof fn lemma_ip_text_round_trip(a: IpAddr)
    ensures
        match a {
            IpAddr::V4(x) => spec_parse_ipv4(ipv4_text(x@)) == Some(x@),
            IpAddr::V6(x) => spec_parse_ipv4(ipv6_text(x@, true)) is None && spec_parse_ipv6(
                ipv6_text(x@, true),
            ) == Some(x@),
        },
{
    match a {
        IpAddr::V4(x) => {
            crate::net::text::lemma_parse_of_ipv4_text(x@);
        },
        IpAddr::V6(x) => {
            crate::net::text::lemma_parse_of_ipv6_text_dispatch(x@, true);
        },
    }
}

} // verus!

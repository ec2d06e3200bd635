//! Socket address types and the resolution protocol.
//!
//! A socket address pairs an IP address with a 16-bit port; the IPv6
//! form also carries flow information and a scope identifier.  The
//! resolution protocol turns heterogeneous inputs — literal addresses,
//! address/port pairs, `host:port` text — into socket addresses,
//! calling an injected resolver capability only when the input is not a
//! literal.

use vstd::prelude::*;

use core::cmp::Ordering;

use crate::net::ip::{
    ip4_num, ip6_num, lemma_ipv4_order_total, lemma_ipv6_order_total, AddrParseError, IpAddr,
    Ipv4Addr, Ipv6Addr,
};
use crate::net::parse::{
    dec_run, ipv4_at, ipv6_prefix, octet_at, octets_scan, port_at, port_token, scope_token,
    spec_parse_ipv4, spec_parse_ipv6, spec_parse_sock4, spec_parse_sock6,
};
use crate::net::text::{push_dec, sock4_text, sock6_text};
use vstd::std_specs::cmp::PartialOrdSpec;
use vstd::string::{StrSliceExecFns, StringExecFns};

verus! {

/// An IPv4 socket address: an IPv4 address and a port.
#[derive(Clone, Copy, PartialEq, Eq, Structural, Hash, Ord, Debug)]
pub struct SocketAddrV4 {
    /// The address.
    pub ip: Ipv4Addr,
    /// The port.
    pub port: u16,
}

/// An IPv6 socket address: an IPv6 address, a port, flow information
/// and a scope identifier.
#[derive(Clone, Copy, PartialEq, Eq, Structural, Hash, Ord, Debug)]
pub struct SocketAddrV6 {
    /// The address.
    pub ip: Ipv6Addr,
    /// The port.
    pub port: u16,
    /// Traffic-class and flow-label bits, carried opaquely.
    pub flowinfo: u32,
    /// The scope identifier.
    pub scope_id: u32,
}

/// An internet socket address, either IPv4 or IPv6.
#[derive(Clone, Copy, PartialEq, Eq, Structural, Hash, Ord, Debug)]
pub enum SocketAddr {
    /// An IPv4 socket address.
    V4(SocketAddrV4),
    /// An IPv6 socket address.
    V6(SocketAddrV6),
}

impl SocketAddrV4 {
    /// Creates a socket address from an IPv4 address and a port.
    pub fn new(ip: Ipv4Addr, port: u16) -> (r: SocketAddrV4)
        ensures
            r == (SocketAddrV4 { ip, port }),
    {
        SocketAddrV4 { ip, port }
    }

    /// The IP address of this socket address.
    pub fn ip(&self) -> (r: &Ipv4Addr)
        ensures
            *r == self.ip,
    {
        &self.ip
    }

    /// Changes the IP address, keeping the port.
    pub fn set_ip(&mut self, new_ip: Ipv4Addr)
        ensures
            *final(self) == (SocketAddrV4 { ip: new_ip, ..*old(self) }),
    {
        self.ip = new_ip;
    }

    /// The port of this socket address.
    pub fn port(&self) -> (r: u16)
        ensures
            r == self.port,
    {
        self.port
    }

    /// Changes the port, keeping the address.
    pub fn set_port(&mut self, new_port: u16)
        ensures
            *final(self) == (SocketAddrV4 { port: new_port, ..*old(self) }),
    {
        self.port = new_port;
    }

    /// Parses `ip:port`, accepting exactly the IPv4 socket grammar.
    pub fn parse(s: &str) -> (r: Result<SocketAddrV4, AddrParseError>)
        ensures
            match r {
                Ok(sa) => spec_parse_sock4(s@) == Some((sa.ip@, sa.port)),
                Err(_) => spec_parse_sock4(s@) is None,
            },
    {
        proof {
            assert(s@.skip(0) =~= s@);
        }
        let len = s.unicode_len();
        match octets_scan(s, 0, 4) {
            None => Err(AddrParseError),
            Some((o, j)) => {
                if j < len && s.get_char(j) == ':' {
                    match port_token(s, j + 1) {
                        None => Err(AddrParseError),
                        Some((p, j2)) => {
                            if j2 == len {
                                let ip = Ipv4Addr::new(o[0], o[1], o[2], o[3]);
                                proof {
                                    assert(ip@ =~= o@);
                                }
                                Ok(SocketAddrV4 { ip, port: p })
                            } else {
                                Err(AddrParseError)
                            }
                        },
                    }
                } else {
                    Err(AddrParseError)
                }
            },
        }
    }

    /// The canonical text of this socket address, `ip:port`.
    pub fn to_text(&self) -> (r: String)
        ensures
            r@ == sock4_text(self.ip@, self.port),
    {
        let mut out = self.ip.to_text();
        out.append(":");
        push_dec(&mut out, self.port as u64);
        proof {
            reveal_strlit(":");
            assert((":")@ =~= seq![':']);
            assert(out@ =~= sock4_text(self.ip@, self.port));
        }
        out
    }
}

impl SocketAddrV6 {
    /// Creates a socket address from an IPv6 address, a port, and the
    /// flow-information and scope-identifier fields.
    pub fn new(ip: Ipv6Addr, port: u16, flowinfo: u32, scope_id: u32) -> (r: SocketAddrV6)
        ensures
            r == (SocketAddrV6 { ip, port, flowinfo, scope_id }),
    {
        SocketAddrV6 { ip, port, flowinfo, scope_id }
    }

    /// The IP address of this socket address.
    pub fn ip(&self) -> (r: &Ipv6Addr)
        ensures
            *r == self.ip,
    {
        &self.ip
    }

    /// Changes the IP address, keeping every other field.
    pub fn set_ip(&mut self, new_ip: Ipv6Addr)
        ensures
            *final(self) == (SocketAddrV6 { ip: new_ip, ..*old(self) }),
    {
        self.ip = new_ip;
    }

    /// The port of this socket address.
    pub fn port(&self) -> (r: u16)
        ensures
            r == self.port,
    {
        self.port
    }

    /// Changes the port, keeping every other field.
    pub fn set_port(&mut self, new_port: u16)
        ensures
            *final(self) == (SocketAddrV6 { port: new_port, ..*old(self) }),
    {
        self.port = new_port;
    }

    /// The flow information of this socket address.
    pub fn flowinfo(&self) -> (r: u32)
        ensures
            r == self.flowinfo,
    {
        self.flowinfo
    }

    /// Changes the flow information, keeping every other field.
    pub fn set_flowinfo(&mut self, new_flowinfo: u32)
        ensures
            *final(self) == (SocketAddrV6 { flowinfo: new_flowinfo, ..*old(self) }),
    {
        self.flowinfo = new_flowinfo;
    }

    /// The scope identifier of this socket address.
    pub fn scope_id(&self) -> (r: u32)
        ensures
            r == self.scope_id,
    {
        self.scope_id
    }

    /// Changes the scope identifier, keeping every other field.
    pub fn set_scope_id(&mut self, new_scope_id: u32)
        ensures
            *final(self) == (SocketAddrV6 { scope_id: new_scope_id, ..*old(self) }),
    {
        self.scope_id = new_scope_id;
    }

    /// Parses `[ip]:port` or `[ip%scope]:port`, accepting exactly the
    /// IPv6 socket grammar.  The flow information of a parsed address
    /// is zero.
    pub fn parse(s: &str) -> (r: Result<SocketAddrV6, AddrParseError>)
        ensures
            match r {
                Ok(sa) => spec_parse_sock6(s@) == Some((sa.ip@, sa.port, sa.scope_id))
                    && sa.flowinfo == 0,
                Err(_) => spec_parse_sock6(s@) is None,
            },
    {
        let len = s.unicode_len();
        if len == 0 || s.get_char(0) != '[' {
            return Err(AddrParseError);
        }
        match ipv6_prefix(s, 1) {
            None => Err(AddrParseError),
            Some((g, j)) => {
                let (sc, j2) = if j < len && s.get_char(j) == '%' {
                    match scope_token(s, j + 1) {
                        None => {
                            return Err(AddrParseError);
                        },
                        Some((sc, j2)) => (sc, j2),
                    }
                } else {
                    (0u32, j)
                };
                if j2 < len && s.get_char(j2) == ']' && j2 + 1 < len && s.get_char(j2 + 1) == ':' {
                    match port_token(s, j2 + 2) {
                        None => Err(AddrParseError),
                        Some((p, j3)) => {
                            if j3 == len {
                                let ip = Ipv6Addr::new(g[0], g[1], g[2], g[3], g[4], g[5], g[6], g[7]);
                                proof {
                                    assert(ip@ =~= g@);
                                }
                                Ok(SocketAddrV6 { ip, port: p, flowinfo: 0, scope_id: sc })
                            } else {
                                Err(AddrParseError)
                            }
                        },
                    }
                } else {
                    Err(AddrParseError)
                }
            },
        }
    }

    /// The canonical text of this socket address: `[ip]:port`, with
    /// the scope as `[ip%scope]:port` when it is nonzero.
    pub fn to_text(&self) -> (r: String)
        ensures
            r@ == sock6_text(self.ip@, self.port, self.scope_id),
    {
        let mut out = String::from_str("[");
        let ip_text = self.ip.to_text();
        out.append(ip_text.as_str());
        if self.scope_id != 0 {
            out.append("%");
            push_dec(&mut out, self.scope_id as u64);
        }
        out.append("]:");
        push_dec(&mut out, self.port as u64);
        proof {
            reveal_strlit("[");
            reveal_strlit("%");
            reveal_strlit("]:");
            assert(("[")@ =~= seq!['[']);
            assert(("%")@ =~= seq!['%']);
            assert(("]:")@ =~= seq![']', ':']);
            assert(out@ =~= sock6_text(self.ip@, self.port, self.scope_id));
        }
        out
    }
}

/// The socket address a whole string denotes, trying the IPv4 socket
/// grammar first and the IPv6 socket grammar second.
pub open spec fn sock_literal(s: Seq<char>) -> Option<SocketAddr> {
    match spec_parse_sock4(s) {
        Some((o, p)) => Some(
            SocketAddr::V4(
                SocketAddrV4 {
                    ip: Ipv4Addr { a: o[0], b: o[1], c: o[2], d: o[3] },
                    port: p,
                },
            ),
        ),
        None => match spec_parse_sock6(s) {
            Some((g, p, sc)) => Some(
                SocketAddr::V6(
                    SocketAddrV6 {
                        ip: Ipv6Addr {
                            s0: g[0],
                            s1: g[1],
                            s2: g[2],
                            s3: g[3],
                            s4: g[4],
                            s5: g[5],
                            s6: g[6],
                            s7: g[7],
                        },
                        port: p,
                        flowinfo: 0,
                        scope_id: sc,
                    },
                ),
            ),
            None => None,
        },
    }
}

impl SocketAddr {
    /// Creates a socket address from an IP address and a port.  For an
    /// IPv6 address the flow information and scope identifier are zero.
    pub fn new(ip: IpAddr, port: u16) -> (r: SocketAddr)
        ensures
            r == (match ip {
                IpAddr::V4(a) => SocketAddr::V4(SocketAddrV4 { ip: a, port }),
                IpAddr::V6(a) => SocketAddr::V6(
                    SocketAddrV6 { ip: a, port, flowinfo: 0, scope_id: 0 },
                ),
            }),
    {
        match ip {
            IpAddr::V4(a) => SocketAddr::V4(SocketAddrV4::new(a, port)),
            IpAddr::V6(a) => SocketAddr::V6(SocketAddrV6::new(a, port, 0, 0)),
        }
    }

    /// The IP address of this socket address.
    pub fn ip(&self) -> (r: IpAddr)
        ensures
            r == (match *self {
                SocketAddr::V4(a) => IpAddr::V4(a.ip),
                SocketAddr::V6(a) => IpAddr::V6(a.ip),
            }),
    {
        match self {
            SocketAddr::V4(a) => IpAddr::V4(*a.ip()),
            SocketAddr::V6(a) => IpAddr::V6(*a.ip()),
        }
    }

    /// Changes the IP address.  Within a family the other fields are
    /// kept; across families the address is rebuilt with the old port
    /// and, for IPv6, zero flow information and scope identifier.
    pub fn set_ip(&mut self, new_ip: IpAddr)
        ensures
            *final(self) == (match (*old(self), new_ip) {
                (SocketAddr::V4(a), IpAddr::V4(ip)) => SocketAddr::V4(SocketAddrV4 { ip, ..a }),
                (SocketAddr::V6(a), IpAddr::V6(ip)) => SocketAddr::V6(SocketAddrV6 { ip, ..a }),
                (SocketAddr::V4(a), IpAddr::V6(ip)) => SocketAddr::V6(
                    SocketAddrV6 { ip, port: a.port, flowinfo: 0, scope_id: 0 },
                ),
                (SocketAddr::V6(a), IpAddr::V4(ip)) => SocketAddr::V4(
                    SocketAddrV4 { ip, port: a.port },
                ),
            }),
    {
        match (&mut *self, new_ip) {
            (SocketAddr::V4(a), IpAddr::V4(ip)) => a.set_ip(ip),
            (SocketAddr::V6(a), IpAddr::V6(ip)) => a.set_ip(ip),
            (this, ip) => *this = SocketAddr::new(ip, this.port()),
        }
    }

    /// The port of this socket address.
    pub fn port(&self) -> (r: u16)
        ensures
            r == (match *self {
                SocketAddr::V4(a) => a.port,
                SocketAddr::V6(a) => a.port,
            }),
    {
        match self {
            SocketAddr::V4(a) => a.port(),
            SocketAddr::V6(a) => a.port(),
        }
    }

    /// Changes the port, keeping everything else.
    pub fn set_port(&mut self, new_port: u16)
        ensures
            *final(self) == (match *old(self) {
                SocketAddr::V4(a) => SocketAddr::V4(SocketAddrV4 { port: new_port, ..a }),
                SocketAddr::V6(a) => SocketAddr::V6(SocketAddrV6 { port: new_port, ..a }),
            }),
    {
        match self {
            SocketAddr::V4(a) => a.set_port(new_port),
            SocketAddr::V6(a) => a.set_port(new_port),
        }
    }

    /// Whether the address is IPv4.
    pub fn is_ipv4(&self) -> (r: bool)
        ensures
            r == (self matches SocketAddr::V4(_)),
    {
        matches!(self, SocketAddr::V4(_))
    }

    /// Whether the address is IPv6.
    pub fn is_ipv6(&self) -> (r: bool)
        ensures
            r == (self matches SocketAddr::V6(_)),
    {
        matches!(self, SocketAddr::V6(_))
    }

    /// Parses a socket address of either family, trying the IPv4
    /// socket grammar first and the IPv6 socket grammar second.
    pub fn parse(s: &str) -> (r: Result<SocketAddr, AddrParseError>)
        ensures
            match r {
                Ok(a) => sock_literal(s@) == Some(a),
                Err(_) => sock_literal(s@) is None,
            },
    {
        match SocketAddrV4::parse(s) {
            Ok(a) => {
                proof {
                    assert(a.ip@ =~= seq![a.ip.a, a.ip.b, a.ip.c, a.ip.d]);
                }
                Ok(SocketAddr::V4(a))
            },
            Err(_) => match SocketAddrV6::parse(s) {
                Ok(a) => Ok(SocketAddr::V6(a)),
                Err(_) => Err(AddrParseError),
            },
        }
    }

    /// The canonical text of this socket address, in its family's form.
    pub fn to_text(&self) -> (r: String)
        ensures
            r@ == (match *self {
                SocketAddr::V4(a) => sock4_text(a.ip@, a.port),
                SocketAddr::V6(a) => sock6_text(a.ip@, a.port, a.scope_id),
            }),
    {
        match self {
            SocketAddr::V4(a) => a.to_text(),
            SocketAddr::V6(a) => a.to_text(),
        }
    }
}

/// The position of the last `:` in `s`, if any.
pub open spec fn last_colon(s: Seq<char>) -> Option<int>
    decreases s.len(),
{
    if s.len() == 0 {
        None
    } else if s.last() == ':' {
        Some(s.len() - 1)
    } else {
        last_colon(s.drop_last())
    }
}

/// A whole string read as a port number.
pub open spec fn port_all(u: Seq<char>) -> Option<u16> {
    match port_at(u) {
        Some((p, n)) => if n == u.len() {
            Some(p)
        } else {
            None
        },
        None => None,
    }
}

proof fn lemma_last_colon_is_none(s: Seq<char>)
    requires
        forall|k: int| 0 <= k < s.len() ==> s[k] != ':',
    ensures
        last_colon(s) is None,
    decreases s.len(),
{
    if s.len() > 0 {
        let u = s.drop_last();
        assert(s.last() != ':');
        assert forall|k: int| 0 <= k < u.len() implies u[k] != ':' by {
            assert(u[k] == s[k]);
        }
        lemma_last_colon_is_none(u);
    }
}

proof fn lemma_last_colon_is_some(s: Seq<char>, i: int)
    requires
        0 <= i < s.len(),
        s[i] == ':',
        forall|k: int| i < k < s.len() ==> s[k] != ':',
    ensures
        last_colon(s) == Some(i),
    decreases s.len(),
{
    if i == s.len() - 1 {
    } else {
        let u = s.drop_last();
        assert(s.last() != ':');
        assert(u[i] == s[i]);
        assert forall|k: int| i < k < u.len() implies u[k] != ':' by {
            assert(u[k] == s[k]);
        }
        lemma_last_colon_is_some(u, i);
    }
}

/// Finds the last `:` in `s`.
fn last_colon_exec(s: &str) -> (r: Option<usize>)
    ensures
        match r {
            Some(i) => last_colon(s@) == Some(i as int) && i < s@.len(),
            None => last_colon(s@) is None,
        },
{
    let len = s.unicode_len();
    let mut j = len;
    while j > 0
        invariant
            j <= len,
            len == s@.len(),
            forall|k: int| j <= k < len ==> s@[k] != ':',
        decreases j,
    {
        j -= 1;
        let c = s.get_char(j);
        if c == ':' {
            proof {
                lemma_last_colon_is_some(s@, j as int);
            }
            return Some(j);
        }
    }
    proof {
        lemma_last_colon_is_none(s@);
    }
    None
}

/// Reads the suffix of `s` from `i` as a whole port number.
fn port_all_token(s: &str, i: usize) -> (r: Option<u16>)
    requires
        i <= s@.len(),
    ensures
        match r {
            Some(p) => port_all(s@.skip(i as int)) == Some(p),
            None => port_all(s@.skip(i as int)) is None,
        },
{
    match port_token(s, i) {
        Some((p, j)) => {
            if j == s.unicode_len() {
                Some(p)
            } else {
                None
            }
        },
        None => None,
    }
}

/// Looks up the socket addresses of a hostname.
///
/// The one operation may block the calling thread; no cancellation or
/// timeout is defined at this layer.  What a concrete resolver returns
/// is its own business, stated by its `resolve_ens`.
pub trait GetSocketAddrs {
    /// The iterator of resolved addresses.
    type Iter: Iterator<Item = SocketAddr>;

    /// The error type; parse failures must be convertible into it.
    type Error: From<AddrParseError>;

    /// What a finished resolution promises.  Unless an implementation
    /// overrides this with something stronger, nothing is promised.
    open spec fn resolve_ens(&self, host: Seq<char>, port: u16, r: Result<Self::Iter, Self::Error>) -> bool {
        true
    }

    /// Resolves `host` with `port` to socket addresses.
    fn get_socket_addrs(&self, host: &str, port: u16) -> (r: Result<Self::Iter, Self::Error>)
        ensures
            self.resolve_ens(host@, port, r),
    ;
}

/// The result of a resolution: exactly one address for a literal
/// input, or whatever the resolver produced.
pub enum OneOrMany<I> {
    /// Exactly one address.
    One(Option<SocketAddr>),
    /// The resolver's own sequence of addresses.
    Many(I),
}

impl<I> OneOrMany<I> {
    /// The single-element result.
    pub fn one(item: SocketAddr) -> (r: Self)
        ensures
            r == OneOrMany::<I>::One(Some(item)),
    {
        OneOrMany::One(Some(item))
    }
}

/// Turns a value into socket addresses through a resolver capability.
///
/// An input that already denotes a concrete address — a socket-address
/// value, an address/port pair, or text that parses as a socket
/// literal — yields exactly that one address and never reaches the
/// resolver.  Only a textual host name is handed to the resolver.
pub trait ToSocketAddrs<T: GetSocketAddrs> {
    /// The one address this input denotes, when no resolver is needed.
    spec fn literal_addr(&self) -> Option<SocketAddr>;

    /// The host and port handed to the resolver otherwise, when the
    /// input is well-formed enough to name them.
    spec fn resolver_query(&self) -> Option<(Seq<char>, u16)>;

    /// Converts this value to socket addresses, resolving if needed.
    ///
    /// May block the calling thread while resolution is performed.
    fn to_socket_addrs(&self, get: &T) -> (r: Result<OneOrMany<T::Iter>, T::Error>)
        ensures
            match self.literal_addr() {
                Some(a) => r matches Ok(OneOrMany::One(Some(b))) && b == a,
                None => match self.resolver_query() {
                    Some((h, p)) => match r {
                        Ok(m) => m matches OneOrMany::Many(it) && get.resolve_ens(h, p, Ok(it)),
                        Err(e) => get.resolve_ens(h, p, Err(e)),
                    },
                    None => r is Err,
                },
            },
    ;
}

impl<T: GetSocketAddrs> ToSocketAddrs<T> for SocketAddr {
    open spec fn literal_addr(&self) -> Option<SocketAddr> {
        Some(*self)
    }

    open spec fn resolver_query(&self) -> Option<(Seq<char>, u16)> {
        None
    }

    fn to_socket_addrs(&self, _get: &T) -> Result<OneOrMany<T::Iter>, T::Error> {
        Ok(OneOrMany::one(*self))
    }
}

impl<T: GetSocketAddrs> ToSocketAddrs<T> for SocketAddrV4 {
    open spec fn literal_addr(&self) -> Option<SocketAddr> {
        Some(SocketAddr::V4(*self))
    }

    open spec fn resolver_query(&self) -> Option<(Seq<char>, u16)> {
        None
    }

    fn to_socket_addrs(&self, _get: &T) -> Result<OneOrMany<T::Iter>, T::Error> {
        Ok(OneOrMany::one(SocketAddr::V4(*self)))
    }
}

impl<T: GetSocketAddrs> ToSocketAddrs<T> for SocketAddrV6 {
    open spec fn literal_addr(&self) -> Option<SocketAddr> {
        Some(SocketAddr::V6(*self))
    }

    open spec fn resolver_query(&self) -> Option<(Seq<char>, u16)> {
        None
    }

    fn to_socket_addrs(&self, _get: &T) -> Result<OneOrMany<T::Iter>, T::Error> {
        Ok(OneOrMany::one(SocketAddr::V6(*self)))
    }
}

impl<T: GetSocketAddrs> ToSocketAddrs<T> for (IpAddr, u16) {
    open spec fn literal_addr(&self) -> Option<SocketAddr> {
        Some(
            match self.0 {
                IpAddr::V4(a) => SocketAddr::V4(SocketAddrV4 { ip: a, port: self.1 }),
                IpAddr::V6(a) => SocketAddr::V6(
                    SocketAddrV6 { ip: a, port: self.1, flowinfo: 0, scope_id: 0 },
                ),
            },
        )
    }

    open spec fn resolver_query(&self) -> Option<(Seq<char>, u16)> {
        None
    }

    fn to_socket_addrs(&self, _get: &T) -> Result<OneOrMany<T::Iter>, T::Error> {
        let (ip, port) = *self;
        Ok(OneOrMany::one(SocketAddr::new(ip, port)))
    }
}

impl<T: GetSocketAddrs> ToSocketAddrs<T> for (Ipv4Addr, u16) {
    open spec fn literal_addr(&self) -> Option<SocketAddr> {
        Some(SocketAddr::V4(SocketAddrV4 { ip: self.0, port: self.1 }))
    }

    open spec fn resolver_query(&self) -> Option<(Seq<char>, u16)> {
        None
    }

    fn to_socket_addrs(&self, _get: &T) -> Result<OneOrMany<T::Iter>, T::Error> {
        let (ip, port) = *self;
        Ok(OneOrMany::one(SocketAddr::V4(SocketAddrV4::new(ip, port))))
    }
}

impl<T: GetSocketAddrs> ToSocketAddrs<T> for (Ipv6Addr, u16) {
    open spec fn literal_addr(&self) -> Option<SocketAddr> {
        Some(SocketAddr::V6(SocketAddrV6 { ip: self.0, port: self.1, flowinfo: 0, scope_id: 0 }))
    }

    open spec fn resolver_query(&self) -> Option<(Seq<char>, u16)> {
        None
    }

    fn to_socket_addrs(&self, _get: &T) -> Result<OneOrMany<T::Iter>, T::Error> {
        let (ip, port) = *self;
        Ok(OneOrMany::one(SocketAddr::V6(SocketAddrV6::new(ip, port, 0, 0))))
    }
}

impl<T: GetSocketAddrs> ToSocketAddrs<T> for (&str, u16) {
    open spec fn literal_addr(&self) -> Option<SocketAddr> {
        match spec_parse_ipv4(self.0@) {
            Some(o) => Some(
                SocketAddr::V4(
                    SocketAddrV4 {
                        ip: Ipv4Addr { a: o[0], b: o[1], c: o[2], d: o[3] },
                        port: self.1,
                    },
                ),
            ),
            None => match spec_parse_ipv6(self.0@) {
                Some(g) => Some(
                    SocketAddr::V6(
                        SocketAddrV6 {
                            ip: Ipv6Addr {
                                s0: g[0],
                                s1: g[1],
                                s2: g[2],
                                s3: g[3],
                                s4: g[4],
                                s5: g[5],
                                s6: g[6],
                                s7: g[7],
                            },
                            port: self.1,
                            flowinfo: 0,
                            scope_id: 0,
                        },
                    ),
                ),
                None => None,
            },
        }
    }

    open spec fn resolver_query(&self) -> Option<(Seq<char>, u16)> {
        Some((self.0@, self.1))
    }

    fn to_socket_addrs(&self, get: &T) -> Result<OneOrMany<T::Iter>, T::Error> {
        let (host, port) = *self;
        match Ipv4Addr::parse(host) {
            Ok(a) => {
                proof {
                    assert(a@ =~= seq![a.a, a.b, a.c, a.d]);
                }
                return Ok(OneOrMany::one(SocketAddr::V4(SocketAddrV4::new(a, port))));
            },
            Err(_) => {},
        }
        match Ipv6Addr::parse(host) {
            Ok(a) => {
                proof {
                    assert(a@ =~= seq![a.s0, a.s1, a.s2, a.s3, a.s4, a.s5, a.s6, a.s7]);
                }
                return Ok(OneOrMany::one(SocketAddr::V6(SocketAddrV6::new(a, port, 0, 0))));
            },
            Err(_) => {},
        }
        match get.get_socket_addrs(host, port) {
            Ok(it) => Ok(OneOrMany::Many(it)),
            Err(e) => Err(e),
        }
    }
}

impl<T: GetSocketAddrs> ToSocketAddrs<T> for str {
    open spec fn literal_addr(&self) -> Option<SocketAddr> {
        sock_literal(self@)
    }

    open spec fn resolver_query(&self) -> Option<(Seq<char>, u16)> {
        match last_colon(self@) {
            Some(i) => match port_all(self@.skip(i + 1)) {
                Some(p) => Some((self@.take(i), p)),
                None => None,
            },
            None => None,
        }
    }

    fn to_socket_addrs(&self, get: &T) -> Result<OneOrMany<T::Iter>, T::Error> {
        match SocketAddr::parse(self) {
            Ok(a) => Ok(OneOrMany::one(a)),
            Err(_) => {
                match last_colon_exec(self) {
                    None => Err(<T::Error as From<AddrParseError>>::from(AddrParseError)),
                    Some(i) => {
                        let len = self.unicode_len();
                        match port_all_token(self, i + 1) {
                            None => Err(
                                <T::Error as From<AddrParseError>>::from(AddrParseError),
                            ),
                            Some(p) => {
                                let host = self.substring_char(0, i);
                                match get.get_socket_addrs(host, p) {
                                    Ok(it) => Ok(OneOrMany::Many(it)),
                                    Err(e) => Err(e),
                                }
                            },
                        }
                    },
                }
            },
        }
    }
}

impl<T: GetSocketAddrs, U: ToSocketAddrs<T> + ?Sized> ToSocketAddrs<T> for &U {
    open spec fn literal_addr(&self) -> Option<SocketAddr> {
        (**self).literal_addr()
    }

    open spec fn resolver_query(&self) -> Option<(Seq<char>, u16)> {
        (**self).resolver_query()
    }

    fn to_socket_addrs(&self, get: &T) -> Result<OneOrMany<T::Iter>, T::Error> {
        (**self).to_socket_addrs(get)
    }
}

impl vstd::std_specs::convert::FromSpecImpl<SocketAddrV4> for SocketAddr {
    open spec fn obeys_from_spec() -> bool {
        true
    }

    open spec fn from_spec(v: SocketAddrV4) -> SocketAddr {
        SocketAddr::V4(v)
    }
}

impl From<SocketAddrV4> for SocketAddr {
    /// Wraps the address in the IPv4 variant.
    fn from(v: SocketAddrV4) -> SocketAddr {
        SocketAddr::V4(v)
    }
}

impl vstd::std_specs::convert::FromSpecImpl<SocketAddrV6> for SocketAddr {
    open spec fn obeys_from_spec() -> bool {
        true
    }

    open spec fn from_spec(v: SocketAddrV6) -> SocketAddr {
        SocketAddr::V6(v)
    }
}

impl From<SocketAddrV6> for SocketAddr {
    /// Wraps the address in the IPv6 variant.
    fn from(v: SocketAddrV6) -> SocketAddr {
        SocketAddr::V6(v)
    }
}

impl vstd::std_specs::convert::FromSpecImpl<(IpAddr, u16)> for SocketAddr {
    open spec fn obeys_from_spec() -> bool {
        true
    }

    open spec fn from_spec(v: (IpAddr, u16)) -> SocketAddr {
        match v.0 {
            IpAddr::V4(a) => SocketAddr::V4(SocketAddrV4 { ip: a, port: v.1 }),
            IpAddr::V6(a) => SocketAddr::V6(
                SocketAddrV6 { ip: a, port: v.1, flowinfo: 0, scope_id: 0 },
            ),
        }
    }
}

impl From<(IpAddr, u16)> for SocketAddr {
    /// An address and a port, the port becoming the socket's port.
    fn from(v: (IpAddr, u16)) -> SocketAddr {
        SocketAddr::new(v.0, v.1)
    }
}

impl vstd::std_specs::convert::FromSpecImpl<(Ipv4Addr, u16)> for SocketAddr {
    open spec fn obeys_from_spec() -> bool {
        true
    }

    open spec fn from_spec(v: (Ipv4Addr, u16)) -> SocketAddr {
        SocketAddr::V4(SocketAddrV4 { ip: v.0, port: v.1 })
    }
}

impl From<(Ipv4Addr, u16)> for SocketAddr {
    /// An IPv4 address and a port, the port becoming the socket's port.
    fn from(v: (Ipv4Addr, u16)) -> SocketAddr {
        SocketAddr::V4(SocketAddrV4::new(v.0, v.1))
    }
}

impl vstd::std_specs::convert::FromSpecImpl<(Ipv6Addr, u16)> for SocketAddr {
    open spec fn obeys_from_spec() -> bool {
        true
    }

    open spec fn from_spec(v: (Ipv6Addr, u16)) -> SocketAddr {
        SocketAddr::V6(SocketAddrV6 { ip: v.0, port: v.1, flowinfo: 0, scope_id: 0 })
    }
}

impl From<(Ipv6Addr, u16)> for SocketAddr {
    /// An IPv6 address and a port, with zero flow information and
    /// scope identifier.
    fn from(v: (Ipv6Addr, u16)) -> SocketAddr {
        SocketAddr::V6(SocketAddrV6::new(v.0, v.1, 0, 0))
    }
}

impl core::str::FromStr for SocketAddrV4 {
    type Err = AddrParseError;

    fn from_str(s: &str) -> Result<SocketAddrV4, AddrParseError> {
        SocketAddrV4::parse(s)
    }
}

impl core::str::FromStr for SocketAddrV6 {
    type Err = AddrParseError;

    fn from_str(s: &str) -> Result<SocketAddrV6, AddrParseError> {
        SocketAddrV6::parse(s)
    }
}

impl core::str::FromStr for SocketAddr {
    type Err = AddrParseError;

    fn from_str(s: &str) -> Result<SocketAddr, AddrParseError> {
        SocketAddr::parse(s)
    }
}

impl crate::net::SocketAddr for SocketAddr {
    type IpAddr = IpAddr;

    fn new(ip: IpAddr, port: u16) -> SocketAddr {
        SocketAddr::new(ip, port)
    }

    fn ip(&self) -> IpAddr {
        (*self).ip()
    }

    fn set_ip(&mut self, new_ip: IpAddr) {
        (*self).set_ip(new_ip)
    }

    fn port(&self) -> u16 {
        (*self).port()
    }

    fn set_port(&mut self, new_port: u16) {
        (*self).set_port(new_port)
    }

    fn is_ipv4(&self) -> bool {
        (*self).is_ipv4()
    }

    fn is_ipv6(&self) -> bool {
        (*self).is_ipv6()
    }
}

/// Round trip for socket addresses: the canonical text parses back to
/// the same value.  The text does not carry flow information, so this
/// holds of the addresses whose flow information is zero.
pub proof fn lemma_sock_text_round_trip(sa: SocketAddr)
    requires
        sa matches SocketAddr::V6(x) ==> x.flowinfo == 0,
    ensures
        sock_literal(
            match sa {
                SocketAddr::V4(x) => sock4_text(x.ip@, x.port),
                SocketAddr::V6(x) => sock6_text(x.ip@, x.port, x.scope_id),
            },
        ) == Some(sa),
{
    match sa {
        SocketAddr::V4(x) => {
            crate::net::text::lemma_parse_of_sock4_text(x.ip@, x.port);
        },
        SocketAddr::V6(x) => {
            let s = sock6_text(x.ip@, x.port, x.scope_id);
            assert(s[0] == '[');
            assert(dec_run(s) == 0);
            assert(octet_at(s) is None);
            assert(ipv4_at(s) is None);
            assert(spec_parse_sock4(s) is None);
            crate::net::text::lemma_parse_of_sock6_text(x.ip@, x.port, x.scope_id);
        },
    }
}

impl vstd::std_specs::cmp::PartialOrdSpecImpl for SocketAddrV4 {
    open spec fn obeys_partial_cmp_spec() -> bool {
        true
    }

    open spec fn partial_cmp_spec(&self, other: &SocketAddrV4) -> Option<Ordering> {
        if self.ip != other.ip {
            PartialOrdSpec::partial_cmp_spec(&self.ip, &other.ip)
        } else if self.port != other.port {
            Some(
                if self.port < other.port {
                    Ordering::Less
                } else {
                    Ordering::Greater
                },
            )
        } else {
            Some(Ordering::Equal)
        }
    }
}

impl PartialOrd for SocketAddrV4 {
    fn partial_cmp(&self, other: &SocketAddrV4) -> Option<Ordering> {
        if self.ip != other.ip {
            self.ip.partial_cmp(&other.ip)
        } else if self.port != other.port {
            Some(
                if self.port < other.port {
                    Ordering::Less
                } else {
                    Ordering::Greater
                },
            )
        } else {
            Some(Ordering::Equal)
        }
    }
}

impl vstd::std_specs::cmp::PartialOrdSpecImpl for SocketAddrV6 {
    open spec fn obeys_partial_cmp_spec() -> bool {
        true
    }

    open spec fn partial_cmp_spec(&self, other: &SocketAddrV6) -> Option<Ordering> {
        if self.ip != other.ip {
            PartialOrdSpec::partial_cmp_spec(&self.ip, &other.ip)
        } else if self.port != other.port {
            Some(
                if self.port < other.port {
                    Ordering::Less
                } else {
                    Ordering::Greater
                },
            )
        } else if self.flowinfo != other.flowinfo {
            Some(
                if self.flowinfo < other.flowinfo {
                    Ordering::Less
                } else {
                    Ordering::Greater
                },
            )
        } else if self.scope_id != other.scope_id {
            Some(
                if self.scope_id < other.scope_id {
                    Ordering::Less
                } else {
                    Ordering::Greater
                },
            )
        } else {
            Some(Ordering::Equal)
        }
    }
}

impl PartialOrd for SocketAddrV6 {
    fn partial_cmp(&self, other: &SocketAddrV6) -> Option<Ordering> {
        if self.ip != other.ip {
            self.ip.partial_cmp(&other.ip)
        } else if self.port != other.port {
            Some(
                if self.port < other.port {
                    Ordering::Less
                } else {
                    Ordering::Greater
                },
            )
        } else if self.flowinfo != other.flowinfo {
            Some(
                if self.flowinfo < other.flowinfo {
                    Ordering::Less
                } else {
                    Ordering::Greater
                },
            )
        } else if self.scope_id != other.scope_id {
            Some(
                if self.scope_id < other.scope_id {
                    Ordering::Less
                } else {
                    Ordering::Greater
                },
            )
        } else {
            Some(Ordering::Equal)
        }
    }
}

impl vstd::std_specs::cmp::PartialOrdSpecImpl for SocketAddr {
    open spec fn obeys_partial_cmp_spec() -> bool {
        true
    }

    open spec fn partial_cmp_spec(&self, other: &SocketAddr) -> Option<Ordering> {
        match (self, other) {
            (SocketAddr::V4(x), SocketAddr::V4(y)) => PartialOrdSpec::partial_cmp_spec(x, y),
            (SocketAddr::V4(_), SocketAddr::V6(_)) => Some(Ordering::Less),
            (SocketAddr::V6(_), SocketAddr::V4(_)) => Some(Ordering::Greater),
            (SocketAddr::V6(x), SocketAddr::V6(y)) => PartialOrdSpec::partial_cmp_spec(x, y),
        }
    }
}

impl PartialOrd for SocketAddr {
    fn partial_cmp(&self, other: &SocketAddr) -> Option<Ordering> {
        match (self, other) {
            (SocketAddr::V4(x), SocketAddr::V4(y)) => x.partial_cmp(y),
            (SocketAddr::V4(_), SocketAddr::V6(_)) => Some(Ordering::Less),
            (SocketAddr::V6(_), SocketAddr::V4(_)) => Some(Ordering::Greater),
            (SocketAddr::V6(x), SocketAddr::V6(y)) => x.partial_cmp(y),
        }
    }
}

/// The IPv4 socket order is total: lexicographic on the address — by
/// big-endian numeric value — and then the port; equal exactly when
/// both fields agree.
pub proof fn lemma_sock4_order_total(x: SocketAddrV4, y: SocketAddrV4)
    ensures
        x.partial_cmp_spec(&y) is Some,
        (x.partial_cmp_spec(&y) == Some(Ordering::Equal)) <==> x == y,
        (x.partial_cmp_spec(&y) == Some(Ordering::Less)) <==> (ip4_num(x.ip) < ip4_num(y.ip) || (
        x.ip == y.ip && x.port < y.port)),
        (x.partial_cmp_spec(&y) == Some(Ordering::Greater)) <==> (ip4_num(x.ip) > ip4_num(y.ip)
            || (x.ip == y.ip && x.port > y.port)),
{
    lemma_ipv4_order_total(x.ip, y.ip);
}

/// The IPv6 socket order is total: lexicographic on the address — by
/// big-endian numeric value — then port, flow information and scope
/// identifier; equal exactly when all four fields agree.
pub proof fn lemma_sock6_order_total(x: SocketAddrV6, y: SocketAddrV6)
    ensures
        x.partial_cmp_spec(&y) is Some,
        (x.partial_cmp_spec(&y) == Some(Ordering::Equal)) <==> x == y,
        (x.partial_cmp_spec(&y) == Some(Ordering::Less)) <==> (ip6_num(x.ip) < ip6_num(y.ip) || (
        x.ip == y.ip && x.port < y.port) || (x.ip == y.ip && x.port == y.port && x.flowinfo
            < y.flowinfo) || (x.ip == y.ip && x.port == y.port && x.flowinfo == y.flowinfo
            && x.scope_id < y.scope_id)),
        (x.partial_cmp_spec(&y) == Some(Ordering::Greater)) <==> (ip6_num(x.ip) > ip6_num(y.ip)
            || (x.ip == y.ip && x.port > y.port) || (x.ip == y.ip && x.port == y.port
            && x.flowinfo > y.flowinfo) || (x.ip == y.ip && x.port == y.port && x.flowinfo
            == y.flowinfo && x.scope_id > y.scope_id)),
{
    lemma_ipv6_order_total(x.ip, y.ip);
}

/// The socket order at the union is total: every IPv4 socket address
/// comes before every IPv6 one, and within a family the lexicographic
/// order of that family applies.
pub proof fn lemma_sock_order_total(x: SocketAddr, y: SocketAddr)
    ensures
        x.partial_cmp_spec(&y) is Some,
        (x.partial_cmp_spec(&y) == Some(Ordering::Equal)) <==> x == y,
        (x matches SocketAddr::V4(_) && y matches SocketAddr::V6(_)) ==> x.partial_cmp_spec(&y)
            == Some(Ordering::Less),
        (x matches SocketAddr::V6(_) && y matches SocketAddr::V4(_)) ==> x.partial_cmp_spec(&y)
            == Some(Ordering::Greater),
        (match (x, y) {
            (SocketAddr::V4(a), SocketAddr::V4(b)) => x.partial_cmp_spec(&y)
                == a.partial_cmp_spec(&b),
            (SocketAddr::V6(a), SocketAddr::V6(b)) => x.partial_cmp_spec(&y)
                == a.partial_cmp_spec(&b),
            _ => true,
        }),
{
    match (x, y) {
        (SocketAddr::V4(a), SocketAddr::V4(b)) => {
            lemma_sock4_order_total(a, b);
        },
        (SocketAddr::V6(a), SocketAddr::V6(b)) => {
            lemma_sock6_order_total(a, b);
        },
        _ => {},
    }
}

} // verus!

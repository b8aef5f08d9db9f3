//! IP and socket addresses as plain octets, with the address classes that
//! `std::net` documents.

use vstd::prelude::*;

use crate::be_bytes::{be16, be32, lemma_be16, lemma_be32, push_all, push_be16, push_be32};
use crate::order::lex_lt;

verus! {

#[derive(Clone, Copy, Debug, PartialEq, Eq, Hash)]
pub enum IpAddr {
    V4([u8; 4]),
    V6([u8; 16]),
}

#[derive(Clone, Copy, Debug, PartialEq, Eq, Hash)]
pub enum SocketAddr {
    V4 { ip: [u8; 4], port: u16 },
    V6 { ip: [u8; 16], port: u16, flowinfo: u32, scope_id: u32 },
}

/// `0.0.0.0` or `::`.
pub open spec fn spec_is_unspecified(ip: IpAddr) -> bool {
    match ip {
        IpAddr::V4(o) => forall|i: int| 0 <= i < 4 ==> o@[i] == 0,
        IpAddr::V6(o) => forall|i: int| 0 <= i < 16 ==> o@[i] == 0,
    }
}

/// `224.0.0.0/4` or `ff00::/8`.
pub open spec fn spec_is_multicast(ip: IpAddr) -> bool {
    match ip {
        IpAddr::V4(o) => 224 <= o@[0] && o@[0] <= 239,
        IpAddr::V6(o) => o@[0] == 0xff,
    }
}

/// `127.0.0.0/8` or `::1`.
pub open spec fn spec_is_loopback(ip: IpAddr) -> bool {
    match ip {
        IpAddr::V4(o) => o@[0] == 127,
        IpAddr::V6(o) => (forall|i: int| 0 <= i < 15 ==> o@[i] == 0) && o@[15] == 1,
    }
}

/// `fe80::/10`.
pub open spec fn spec_is_unicast_link_local_v6(o: Seq<u8>) -> bool {
    o[0] == 0xfe && 0x80 <= o[1] && o[1] <= 0xbf
}

impl IpAddr {
    pub fn is_unspecified(&self) -> (r: bool)
        ensures
            r == spec_is_unspecified(*self),
    {
        match self {
            IpAddr::V4(o) => all_zero(o, 4),
            IpAddr::V6(o) => all_zero(o, 16),
        }
    }

    pub fn is_multicast(&self) -> (r: bool)
        ensures
            r == spec_is_multicast(*self),
    {
        match self {
            IpAddr::V4(o) => o[0] >= 224 && o[0] <= 239,
            IpAddr::V6(o) => o[0] == 0xff,
        }
    }

    pub fn is_loopback(&self) -> (r: bool)
        ensures
            r == spec_is_loopback(*self),
    {
        match self {
            IpAddr::V4(o) => o[0] == 127,
            IpAddr::V6(o) => all_zero(o, 15) && o[15] == 1,
        }
    }
}

fn same_octets(a: &[u8], b: &[u8]) -> (r: bool)
    ensures
        r == (a@ == b@),
{
    crate::be_bytes::bytes_equal(a, b)
}

impl IpAddr {
    /// Whether two addresses are the same address of the same family.
    pub fn same_as(&self, other: &Self) -> (r: bool)
        ensures
            r == (*self == *other),
    {
        match (self, other) {
            (IpAddr::V4(a), IpAddr::V4(b)) => {
                let eq = same_octets(a.as_slice(), b.as_slice());
                proof {
                    if eq {
                        assert forall|i: int| 0 <= i < 4 implies a[i] == b[i] by {
                            assert(a@[i] == b@[i]);
                        }
                        assert(*a =~= *b);
                    }
                }
                eq
            },
            (IpAddr::V6(a), IpAddr::V6(b)) => {
                let eq = same_octets(a.as_slice(), b.as_slice());
                proof {
                    if eq {
                        assert forall|i: int| 0 <= i < 16 implies a[i] == b[i] by {
                            assert(a@[i] == b@[i]);
                        }
                        assert(*a =~= *b);
                    }
                }
                eq
            },
            _ => false,
        }
    }
}

/// Whether the first `n` octets are zero.
fn all_zero(o: &[u8], n: usize) -> (r: bool)
    requires
        n <= o@.len(),
    ensures
        r == (forall|i: int| 0 <= i < n ==> o@[i] == 0),
{
    let mut i: usize = 0;
    while i < n
        invariant
            i <= n,
            n <= o@.len(),
            forall|j: int| 0 <= j < i ==> o@[j] == 0,
        decreases n - i,
    {
        if o[i] != 0 {
            return false;
        }
        i = i + 1;
    }
    true
}

impl SocketAddr {
    pub open spec fn spec_ip(self) -> IpAddr {
        match self {
            SocketAddr::V4 { ip, .. } => IpAddr::V4(ip),
            SocketAddr::V6 { ip, .. } => IpAddr::V6(ip),
        }
    }

    pub open spec fn spec_port(self) -> u16 {
        match self {
            SocketAddr::V4 { port, .. } => port,
            SocketAddr::V6 { port, .. } => port,
        }
    }

    /// The same address with another port.
    pub open spec fn spec_with_port(self, port: u16) -> Self {
        match self {
            SocketAddr::V4 { ip, .. } => SocketAddr::V4 { ip, port },
            SocketAddr::V6 { ip, flowinfo, scope_id, .. } => SocketAddr::V6 {
                ip,
                port,
                flowinfo,
                scope_id,
            },
        }
    }

    pub fn ip(&self) -> (r: IpAddr)
        ensures
            r == self.spec_ip(),
    {
        match self {
            SocketAddr::V4 { ip, .. } => IpAddr::V4(*ip),
            SocketAddr::V6 { ip, .. } => IpAddr::V6(*ip),
        }
    }

    pub fn port(&self) -> (r: u16)
        ensures
            r == self.spec_port(),
    {
        match self {
            SocketAddr::V4 { port, .. } => *port,
            SocketAddr::V6 { port, .. } => *port,
        }
    }

    pub fn set_port(&mut self, port: u16)
        ensures
            *final(self) == old(self).spec_with_port(port),
    {
        match self {
            SocketAddr::V4 { port: p, .. } => {
                *p = port;
            },
            SocketAddr::V6 { port: p, .. } => {
                *p = port;
            },
        }
    }
}

/// The bytes by which socket addresses are ordered: the family (IPv4
/// first), then the address octets, the port, and for IPv6 the flow label
/// and scope, each big-endian. IPv4 keys are padded with zeros so that
/// every key has the same length.
pub open spec fn address_key(a: SocketAddr) -> Seq<u8> {
    match a {
        SocketAddr::V4 { ip, port } => seq![0u8] + ip@ + be16(port) + Seq::new(
            20,
            |i: int| 0u8,
        ),
        SocketAddr::V6 { ip, port, flowinfo, scope_id } => seq![1u8] + ip@ + be16(port) + be32(
            flowinfo,
        ) + be32(scope_id),
    }
}

/// Distinct addresses have distinct keys.
pub proof fn lemma_address_key_injective(a: SocketAddr, b: SocketAddr)
    requires
        address_key(a) == address_key(b),
    ensures
        a == b,
{
    let ka = address_key(a);
    let kb = address_key(b);
    assert(ka[0] == kb[0]);
    assert(ka[0] == if a is V4 { 0u8 } else { 1u8 });
    assert(kb[0] == if b is V4 { 0u8 } else { 1u8 });
    match (a, b) {
        (SocketAddr::V4 { ip: ia, port: pa }, SocketAddr::V4 { ip: ib, port: pb }) => {
            assert(ka.subrange(1, 5) =~= ia@);
            assert(kb.subrange(1, 5) =~= ib@);
            assert(ia =~= ib);
            assert(ka.subrange(5, 7) =~= be16(pa));
            assert(kb.subrange(5, 7) =~= be16(pb));
            lemma_be16(pa, ka, 5);
            lemma_be16(pb, kb, 5);
        },
        (SocketAddr::V6 { ip: ia, port: pa, flowinfo: fa, scope_id: sa }, SocketAddr::V6 {
            ip: ib,
            port: pb,
            flowinfo: fb,
            scope_id: sb,
        }) => {
            assert(ka.subrange(1, 17) =~= ia@);
            assert(kb.subrange(1, 17) =~= ib@);
            assert(ia =~= ib);
            assert(ka.subrange(17, 19) =~= be16(pa));
            assert(kb.subrange(17, 19) =~= be16(pb));
            lemma_be16(pa, ka, 17);
            lemma_be16(pb, kb, 17);
            assert(ka.subrange(19, 23) =~= be32(fa));
            assert(kb.subrange(19, 23) =~= be32(fb));
            lemma_be32(fa, ka, 19);
            lemma_be32(fb, kb, 19);
            assert(ka.subrange(23, 27) =~= be32(sa));
            assert(kb.subrange(23, 27) =~= be32(sb));
            lemma_be32(sa, ka, 23);
            lemma_be32(sb, kb, 23);
        },
        _ => {},
    }
}

impl SocketAddr {
    /// The ordering key of this address.
    pub fn key(&self) -> (r: Vec<u8>)
        ensures
            r@ == address_key(*self),
            r@.len() == 27,
    {
        let mut out: Vec<u8> = Vec::new();
        match self {
            SocketAddr::V4 { ip, port } => {
                out.push(0u8);
                push_all(&mut out, ip.as_slice());
                push_be16(&mut out, *port);
                let mut i: usize = 0;
                while i < 20
                    invariant
                        i <= 20,
                        out@ == seq![0u8] + ip@ + be16(*port) + Seq::new(i as nat, |k: int| 0u8),
                    decreases 20 - i,
                {
                    out.push(0u8);
                    i = i + 1;
                    assert(out@ =~= seq![0u8] + ip@ + be16(*port) + Seq::new(
                        i as nat,
                        |k: int| 0u8,
                    ));
                }
            },
            SocketAddr::V6 { ip, port, flowinfo, scope_id } => {
                out.push(1u8);
                push_all(&mut out, ip.as_slice());
                push_be16(&mut out, *port);
                push_be32(&mut out, *flowinfo);
                push_be32(&mut out, *scope_id);
            },
        }
        out
    }
}

/// The order key of an address: its family, then its octets, an IPv4
/// address padded to the length of an IPv6 one. IPv4 addresses sort before
/// IPv6 ones, and each family by its octets.
pub open spec fn ip_key(ip: IpAddr) -> Seq<u8> {
    match ip {
        IpAddr::V4(o) => seq![0u8] + o@ + Seq::new(12, |i: int| 0u8),
        IpAddr::V6(o) => seq![1u8] + o@,
    }
}

pub open spec fn ip_before(a: IpAddr, b: IpAddr) -> bool {
    lex_lt(ip_key(a), ip_key(b))
}

pub proof fn lemma_ip_key_injective(a: IpAddr, b: IpAddr)
    requires
        ip_key(a) == ip_key(b),
    ensures
        a == b,
{
    match (a, b) {
        (IpAddr::V4(x), IpAddr::V4(y)) => {
            assert forall|i: int| 0 <= i < 4 implies x[i] == y[i] by {
                assert(ip_key(a)[i + 1] == x@[i]);
                assert(ip_key(b)[i + 1] == y@[i]);
            }
            assert(x =~= y);
        },
        (IpAddr::V6(x), IpAddr::V6(y)) => {
            assert forall|i: int| 0 <= i < 16 implies x[i] == y[i] by {
                assert(ip_key(a)[i + 1] == x@[i]);
                assert(ip_key(b)[i + 1] == y@[i]);
            }
            assert(x =~= y);
        },
        (IpAddr::V4(x), IpAddr::V6(y)) => {
            assert(ip_key(a)[0] == 0u8);
            assert(ip_key(b)[0] == 1u8);
        },
        (IpAddr::V6(x), IpAddr::V4(y)) => {
            assert(ip_key(a)[0] == 1u8);
            assert(ip_key(b)[0] == 0u8);
        },
    }
}

pub fn ip_key_exec(ip: &IpAddr) -> (r: Vec<u8>)
    ensures
        r@ == ip_key(*ip),
{
    let mut out: Vec<u8> = Vec::new();
    match ip {
        IpAddr::V4(o) => {
            out.push(0u8);
            let mut i: usize = 0;
            while i < 4
                invariant
                    i <= 4,
                    out@ == seq![0u8] + o@.subrange(0, i as int),
                decreases 4 - i,
            {
                out.push(o[i]);
                i = i + 1;
                assert(out@ =~= seq![0u8] + o@.subrange(0, i as int));
            }
            let mut j: usize = 0;
            while j < 12
                invariant
                    j <= 12,
                    out@ == seq![0u8] + o@ + Seq::new(j as nat, |i: int| 0u8),
                decreases 12 - j,
            {
                out.push(0u8);
                j = j + 1;
                assert(out@ =~= seq![0u8] + o@ + Seq::new(j as nat, |i: int| 0u8));
            }
        },
        IpAddr::V6(o) => {
            out.push(1u8);
            let mut i: usize = 0;
            while i < 16
                invariant
                    i <= 16,
                    out@ == seq![1u8] + o@.subrange(0, i as int),
                decreases 16 - i,
            {
                out.push(o[i]);
                i = i + 1;
                assert(out@ =~= seq![1u8] + o@.subrange(0, i as int));
            }
        },
    }
    out
}

} // verus!

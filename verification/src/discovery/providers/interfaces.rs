//! Which local network interfaces and addresses the presence providers use:
//! external interfaces that do not look like tunnels, and their unicast
//! addresses, each once and in address order.

use vstd::prelude::*;
use vstd::utf8::encode_utf8;

use crate::discovery::providers::presence::{is_probably_tunnel, spec_is_probably_tunnel};
use crate::net::{
    ip_before, ip_key, ip_key_exec, lemma_ip_key_injective, spec_is_loopback, spec_is_multicast,
    spec_is_unspecified, IpAddr,
};
use crate::order::{lemma_lex_lt_transitive, lex_compare, LexOrder};

verus! {

/// One address of a network interface.
#[derive(Clone, Copy, Debug, PartialEq, Eq)]
pub enum InterfaceAddress {
    V4 { ip: [u8; 4], broadcast: Option<[u8; 4]> },
    V6 { ip: [u8; 16] },
}

/// A network interface as the operating system lists it.
#[derive(Clone, Debug, PartialEq, Eq)]
pub struct InterfaceInfo {
    pub name: String,
    pub internal: bool,
    pub index: u32,
    pub addresses: Vec<InterfaceAddress>,
}

/// An IPv4 address the presence provider sends from, with its broadcast
/// address when it has one.
#[derive(Clone, Copy, Debug, PartialEq, Eq)]
pub struct V4InterfaceAddress {
    pub address: [u8; 4],
    pub broadcast: Option<[u8; 4]>,
}

pub open spec fn address_ip(a: InterfaceAddress) -> IpAddr {
    match a {
        InterfaceAddress::V4 { ip, .. } => IpAddr::V4(ip),
        InterfaceAddress::V6 { ip } => IpAddr::V6(ip),
    }
}

/// An address that can carry presence traffic: not unspecified, loopback
/// or multicast.
pub open spec fn usable_ip(ip: IpAddr) -> bool {
    !spec_is_unspecified(ip) && !spec_is_loopback(ip) && !spec_is_multicast(ip)
}

/// An interface the providers use: external, and not a tunnel by name.
pub open spec fn interface_eligible(i: InterfaceInfo) -> bool {
    !i.internal && !spec_is_probably_tunnel(encode_utf8(i.name@))
}

/// The interfaces that are eligible, in order.
pub open spec fn eligible_of(s: Seq<InterfaceInfo>) -> Seq<InterfaceInfo>
    decreases s.len(),
{
    if s.len() == 0 {
        s
    } else if interface_eligible(s.last()) {
        eligible_of(s.drop_last()).push(s.last())
    } else {
        eligible_of(s.drop_last())
    }
}

/// Keeps the interfaces the providers use, in order.
pub fn eligible_interfaces(interfaces: Vec<InterfaceInfo>) -> (r: Vec<InterfaceInfo>)
    ensures
        r@ == eligible_of(interfaces@),
{
    let ghost all = interfaces@;
    let mut rest = interfaces;
    let mut out: Vec<InterfaceInfo> = Vec::new();
    let ghost mut k: int = 0;
    while rest.len() > 0
        invariant
            0 <= k <= all.len(),
            rest@ == all.subrange(k, all.len() as int),
            out@ == eligible_of(all.subrange(0, k)),
        decreases rest@.len(),
    {
        let item = rest.remove(0);
        proof {
            assert(all.subrange(0, k + 1).drop_last() =~= all.subrange(0, k));
            assert(all.subrange(0, k + 1).last() == item);
            k = k + 1;
            assert(rest@ =~= all.subrange(k, all.len() as int));
        }
        if !item.internal && !is_probably_tunnel(item.name.as_str()) {
            out.push(item);
        }
    }
    assert(all.subrange(0, k) =~= all);
    out
}

/// Every address sorts strictly before the next.
pub open spec fn ips_sorted(s: Seq<IpAddr>) -> bool {
    forall|i: int, j: int| 0 <= i < j < s.len() ==> ip_before(#[trigger] s[i], #[trigger] s[j])
}

/// Adds an address to a sorted list of distinct addresses, unless it is
/// already there.
fn insert_sorted_ip(out: &mut Vec<IpAddr>, ip: IpAddr)
    requires
        ips_sorted(old(out)@),
    ensures
        ips_sorted(final(out)@),
        forall|x: IpAddr| final(out)@.contains(x) <==> (old(out)@.contains(x) || x == ip),
{
    let key = ip_key_exec(&ip);
    let ghost s = out@;
    let mut i: usize = 0;
    let mut stop = false;
    while i < out.len() && !stop
        invariant
            i <= out@.len(),
            out@ == s,
            ips_sorted(s),
            key@ == ip_key(ip),
            forall|j: int| 0 <= j < i ==> ip_before(#[trigger] s[j], ip),
            stop ==> i < s.len() && ip_before(ip, s[i as int]),
        decreases out@.len() - i, if stop { 0int } else { 1int },
    {
        let other = ip_key_exec(&out[i]);
        match lex_compare(other.as_slice(), key.as_slice()) {
            LexOrder::Less => {
                i = i + 1;
            },
            LexOrder::Equal => {
                proof {
                    lemma_ip_key_injective(s[i as int], ip);
                }
                return;
            },
            LexOrder::Greater => {
                stop = true;
            },
        }
    }
    proof {
        if i < s.len() {
            assert forall|j: int| i <= j < s.len() implies ip_before(ip, #[trigger] s[j]) by {
                if j > i {
                    lemma_lex_lt_transitive(ip_key(ip), ip_key(s[i as int]), ip_key(s[j]));
                }
            }
        }
    }
    out.insert(i, ip);
    proof {
        let t = out@;
        assert(t == s.insert(i as int, ip));
        assert forall|a: int, b: int| 0 <= a < b < t.len() implies ip_before(
            #[trigger] t[a],
            #[trigger] t[b],
        ) by {
            if a < i && b < i {
            } else if a < i && b == i {
            } else if a < i && b > i {
                assert(t[b] == s[b - 1]);
            } else if a == i {
                assert(t[b] == s[b - 1]);
            } else {
                assert(t[a] == s[a - 1]);
                assert(t[b] == s[b - 1]);
            }
        }
        assert forall|x: IpAddr| t.contains(x) <==> (s.contains(x) || x == ip) by {
            if t.contains(x) {
                let m = choose|m: int| 0 <= m < t.len() && t[m] == x;
                if m < i {
                    assert(s[m] == x);
                } else if m > i {
                    assert(s[m - 1] == x);
                }
            }
            if s.contains(x) {
                let m = choose|m: int| 0 <= m < s.len() && s[m] == x;
                if m < i {
                    assert(t[m] == x);
                } else {
                    assert(t[m + 1] == x);
                }
            }
            if x == ip {
                assert(t[i as int] == x);
            }
        }
    }
}

/// The usable addresses among some interface addresses, in order.
pub open spec fn usable_ips(addrs: Seq<InterfaceAddress>) -> Seq<IpAddr>
    decreases addrs.len(),
{
    if addrs.len() == 0 {
        Seq::empty()
    } else if usable_ip(address_ip(addrs.last())) {
        usable_ips(addrs.drop_last()).push(address_ip(addrs.last()))
    } else {
        usable_ips(addrs.drop_last())
    }
}

/// The usable addresses of the eligible interfaces, interface by
/// interface, repeats included.
pub open spec fn candidate_ips(s: Seq<InterfaceInfo>) -> Seq<IpAddr>
    decreases s.len(),
{
    if s.len() == 0 {
        Seq::empty()
    } else if interface_eligible(s.last()) {
        candidate_ips(s.drop_last()) + usable_ips(s.last().addresses@)
    } else {
        candidate_ips(s.drop_last())
    }
}

proof fn lemma_contains_push<A>(t: Seq<A>, y: A)
    ensures
        forall|x: A| #[trigger] t.push(y).contains(x) <==> (t.contains(x) || x == y),
{
    assert forall|x: A| #[trigger] t.push(y).contains(x) <==> (t.contains(x) || x == y) by {
        if t.push(y).contains(x) {
            let m = choose|m: int| 0 <= m < t.push(y).len() && t.push(y)[m] == x;
            if m < t.len() {
                assert(t[m] == x);
            }
        }
        if t.contains(x) {
            let m = choose|m: int| 0 <= m < t.len() && t[m] == x;
            assert(t.push(y)[m] == x);
        }
        if x == y {
            assert(t.push(y)[t.len() as int] == y);
        }
    }
}

fn usable_exec(ip: &IpAddr) -> (r: bool)
    ensures
        r == usable_ip(*ip),
{
    !ip.is_unspecified() && !ip.is_loopback() && !ip.is_multicast()
}

fn address_ip_exec(a: &InterfaceAddress) -> (r: IpAddr)
    ensures
        r == address_ip(*a),
{
    match a {
        InterfaceAddress::V4 { ip, .. } => IpAddr::V4(*ip),
        InterfaceAddress::V6 { ip } => IpAddr::V6(*ip),
    }
}

/// The usable addresses of the eligible interfaces, each once, in address
/// order.
pub fn eligible_ip_addresses(interfaces: &Vec<InterfaceInfo>) -> (r: Vec<IpAddr>)
    ensures
        ips_sorted(r@),
        forall|x: IpAddr| r@.contains(x) <==> candidate_ips(interfaces@).contains(x),
{
    let ghost s = interfaces@;
    let mut out: Vec<IpAddr> = Vec::new();
    let mut i: usize = 0;
    while i < interfaces.len()
        invariant
            i <= s.len(),
            s == interfaces@,
            ips_sorted(out@),
            forall|x: IpAddr| out@.contains(x) <==> candidate_ips(s.subrange(0, i as int)).contains(x),
        decreases s.len() - i,
    {
        let interface = &interfaces[i];
        let ghost head = candidate_ips(s.subrange(0, i as int));
        proof {
            assert(s.subrange(0, i + 1).drop_last() =~= s.subrange(0, i as int));
            assert(s.subrange(0, i + 1).last() == s[i as int]);
        }
        if !interface.internal && !is_probably_tunnel(interface.name.as_str()) {
            let ghost addrs = s[i as int].addresses@;
            let mut j: usize = 0;
            assert(head + usable_ips(addrs.subrange(0, 0)) =~= head);
            while j < interface.addresses.len()
                invariant
                    i < s.len(),
                    j <= addrs.len(),
                    addrs == interface.addresses@,
                    ips_sorted(out@),
                    forall|x: IpAddr|
                        out@.contains(x) <==> (head + usable_ips(addrs.subrange(0, j as int))).contains(x),
                decreases addrs.len() - j,
            {
                let ip = address_ip_exec(&interface.addresses[j]);
                let ghost before = head + usable_ips(addrs.subrange(0, j as int));
                proof {
                    assert(addrs.subrange(0, j + 1).drop_last() =~= addrs.subrange(0, j as int));
                    assert(addrs.subrange(0, j + 1).last() == addrs[j as int]);
                }
                if usable_exec(&ip) {
                    insert_sorted_ip(&mut out, ip);
                    proof {
                        assert(head + usable_ips(addrs.subrange(0, j + 1)) =~= before.push(ip));
                        lemma_contains_push(before, ip);
                    }
                } else {
                    assert(head + usable_ips(addrs.subrange(0, j + 1)) =~= before);
                }
                j = j + 1;
            }
            assert(addrs.subrange(0, j as int) =~= addrs);
        } else {
            assert(candidate_ips(s.subrange(0, i + 1)) == head);
        }
        i = i + 1;
    }
    assert(s.subrange(0, i as int) =~= s);
    out
}

/// The usable IPv4 addresses among some interface addresses, with their
/// broadcast addresses, in order.
pub open spec fn v4_of(addrs: Seq<InterfaceAddress>) -> Seq<V4InterfaceAddress>
    decreases addrs.len(),
{
    if addrs.len() == 0 {
        Seq::empty()
    } else {
        let rest = v4_of(addrs.drop_last());
        match addrs.last() {
            InterfaceAddress::V4 { ip, broadcast } => if usable_ip(IpAddr::V4(ip)) {
                rest.push(V4InterfaceAddress { address: ip, broadcast })
            } else {
                rest
            },
            InterfaceAddress::V6 { .. } => rest,
        }
    }
}

/// The usable IPv4 addresses of the interfaces, interface by interface.
pub open spec fn v4_entries(s: Seq<InterfaceInfo>) -> Seq<V4InterfaceAddress>
    decreases s.len(),
{
    if s.len() == 0 {
        Seq::empty()
    } else {
        v4_entries(s.drop_last()) + v4_of(s.last().addresses@)
    }
}

pub open spec fn has_address(t: Seq<V4InterfaceAddress>, a: [u8; 4]) -> bool {
    exists|k: int| 0 <= k < t.len() && (#[trigger] t[k]).address == a
}

/// The entries whose address did not occur earlier.
pub open spec fn first_by_address(t: Seq<V4InterfaceAddress>) -> Seq<V4InterfaceAddress>
    decreases t.len(),
{
    if t.len() == 0 {
        t
    } else {
        let rest = first_by_address(t.drop_last());
        if has_address(rest, t.last().address) {
            rest
        } else {
            rest.push(t.last())
        }
    }
}

/// The IPv4 addresses the presence provider sends from: each usable IPv4
/// address once, where it first occurs.
pub fn v4_addresses(interfaces: &Vec<InterfaceInfo>) -> (r: Vec<V4InterfaceAddress>)
    ensures
        r@ == first_by_address(v4_entries(interfaces@)),
{
    let ghost s = interfaces@;
    let mut out: Vec<V4InterfaceAddress> = Vec::new();
    let mut i: usize = 0;
    while i < interfaces.len()
        invariant
            i <= s.len(),
            s == interfaces@,
            out@ == first_by_address(v4_entries(s.subrange(0, i as int))),
        decreases s.len() - i,
    {
        let interface = &interfaces[i];
        let ghost head = v4_entries(s.subrange(0, i as int));
        let ghost addrs = s[i as int].addresses@;
        proof {
            assert(s.subrange(0, i + 1).drop_last() =~= s.subrange(0, i as int));
            assert(s.subrange(0, i + 1).last() == s[i as int]);
            assert(head + v4_of(addrs.subrange(0, 0)) =~= head);
        }
        let mut j: usize = 0;
        while j < interface.addresses.len()
            invariant
                i < s.len(),
                j <= addrs.len(),
                addrs == interface.addresses@,
                out@ == first_by_address(head + v4_of(addrs.subrange(0, j as int))),
            decreases addrs.len() - j,
        {
            let ghost before = head + v4_of(addrs.subrange(0, j as int));
            proof {
                assert(addrs.subrange(0, j + 1).drop_last() =~= addrs.subrange(0, j as int));
                assert(addrs.subrange(0, j + 1).last() == addrs[j as int]);
            }
            match interface.addresses[j] {
                InterfaceAddress::V4 { ip, broadcast } => {
                    let candidate = IpAddr::V4(ip);
                    if usable_exec(&candidate) {
                        let entry = V4InterfaceAddress { address: ip, broadcast };
                        proof {
                            assert(head + v4_of(addrs.subrange(0, j + 1)) =~= before.push(entry));
                            assert(before.push(entry).drop_last() =~= before);
                        }
                        let mut seen = false;
                        let mut k: usize = 0;
                        while k < out.len()
                            invariant
                                k <= out@.len(),
                                seen == exists|q: int| 0 <= q < k && (#[trigger] out@[q]).address == ip,
                            decreases out@.len() - k,
                        {
                            let stored = out[k].address;
                            if crate::be_bytes::bytes_equal(stored.as_slice(), ip.as_slice()) {
                                proof {
                                    assert(stored =~= ip);
                                }
                                seen = true;
                            }
                            k = k + 1;
                        }
                        if !seen {
                            out.push(entry);
                        }
                    } else {
                        assert(head + v4_of(addrs.subrange(0, j + 1)) =~= before);
                    }
                },
                InterfaceAddress::V6 { .. } => {
                    assert(head + v4_of(addrs.subrange(0, j + 1)) =~= before);
                },
            }
            j = j + 1;
        }
        assert(addrs.subrange(0, j as int) =~= addrs);
        i = i + 1;
    }
    assert(s.subrange(0, i as int) =~= s);
    out
}

/// The interface has a usable IPv6 address.
pub open spec fn has_usable_v6(i: InterfaceInfo) -> bool {
    exists|j: int|
        0 <= j < i.addresses@.len() && (#[trigger] i.addresses@[j]) is V6 && usable_ip(
            address_ip(i.addresses@[j]),
        )
}

/// The non-zero indexes of interfaces with a usable IPv6 address, in
/// order, repeats included.
pub open spec fn candidate_indexes(s: Seq<InterfaceInfo>) -> Seq<u32>
    decreases s.len(),
{
    if s.len() == 0 {
        Seq::empty()
    } else if has_usable_v6(s.last()) && s.last().index != 0 {
        candidate_indexes(s.drop_last()).push(s.last().index)
    } else {
        candidate_indexes(s.drop_last())
    }
}

fn has_usable_v6_exec(interface: &InterfaceInfo) -> (r: bool)
    ensures
        r == has_usable_v6(*interface),
{
    let mut j: usize = 0;
    while j < interface.addresses.len()
        invariant
            j <= interface.addresses@.len(),
            forall|q: int|
                0 <= q < j ==> !((#[trigger] interface.addresses@[q]) is V6 && usable_ip(
                    address_ip(interface.addresses@[q]),
                )),
        decreases interface.addresses@.len() - j,
    {
        match interface.addresses[j] {
            InterfaceAddress::V6 { ip } => {
                if usable_exec(&IpAddr::V6(ip)) {
                    return true;
                }
            },
            InterfaceAddress::V4 { .. } => {},
        }
        j = j + 1;
    }
    false
}

/// Adds an index to a strictly increasing list, unless it is there.
fn insert_sorted_index(out: &mut Vec<u32>, index: u32)
    requires
        forall|a: int, b: int| 0 <= a < b < old(out)@.len() ==> old(out)@[a] < old(out)@[b],
    ensures
        forall|a: int, b: int| 0 <= a < b < final(out)@.len() ==> final(out)@[a] < final(out)@[b],
        forall|x: u32| final(out)@.contains(x) <==> (old(out)@.contains(x) || x == index),
{
    let ghost s = out@;
    let mut i: usize = 0;
    while i < out.len() && out[i] < index
        invariant
            i <= out@.len(),
            out@ == s,
            forall|a: int, b: int| 0 <= a < b < s.len() ==> s[a] < s[b],
            forall|j: int| 0 <= j < i ==> s[j] < index,
        decreases out@.len() - i,
    {
        i = i + 1;
    }
    if i < out.len() && out[i] == index {
        return;
    }
    out.insert(i, index);
    proof {
        let t = out@;
        assert forall|x: u32| t.contains(x) <==> (s.contains(x) || x == index) by {
            if t.contains(x) {
                let m = choose|m: int| 0 <= m < t.len() && t[m] == x;
                if m < i {
                    assert(s[m] == x);
                } else if m > i {
                    assert(s[m - 1] == x);
                }
            }
            if s.contains(x) {
                let m = choose|m: int| 0 <= m < s.len() && s[m] == x;
                if m < i {
                    assert(t[m] == x);
                } else {
                    assert(t[m + 1] == x);
                }
            }
            if x == index {
                assert(t[i as int] == x);
            }
        }
    }
}

/// The indexes of the interfaces the IPv6 presence provider joins: each
/// non-zero index of an interface with a usable IPv6 address, once, in
/// increasing order.
pub fn v6_interface_indexes(interfaces: &Vec<InterfaceInfo>) -> (r: Vec<u32>)
    ensures
        forall|a: int, b: int| 0 <= a < b < r@.len() ==> r@[a] < r@[b],
        forall|x: u32| r@.contains(x) <==> candidate_indexes(interfaces@).contains(x),
{
    let ghost s = interfaces@;
    let mut out: Vec<u32> = Vec::new();
    let mut i: usize = 0;
    while i < interfaces.len()
        invariant
            i <= s.len(),
            s == interfaces@,
            forall|a: int, b: int| 0 <= a < b < out@.len() ==> out@[a] < out@[b],
            forall|x: u32| out@.contains(x) <==> candidate_indexes(s.subrange(0, i as int)).contains(x),
        decreases s.len() - i,
    {
        let ghost head = candidate_indexes(s.subrange(0, i as int));
        proof {
            assert(s.subrange(0, i + 1).drop_last() =~= s.subrange(0, i as int));
            assert(s.subrange(0, i + 1).last() == s[i as int]);
        }
        if has_usable_v6_exec(&interfaces[i]) && interfaces[i].index != 0 {
            insert_sorted_index(&mut out, interfaces[i].index);
            proof {
                lemma_contains_push(head, s[i as int].index);
            }
        }
        i = i + 1;
    }
    assert(s.subrange(0, i as int) =~= s);
    out
}

} // verus!

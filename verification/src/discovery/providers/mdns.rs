//! The mDNS provider's configuration.

use vstd::prelude::*;
use vstd::string::StringSliceAdditionalSpecFns;
use vstd::utf8::encode_utf8;

use crate::discovery::error::ProviderError;
use crate::discovery::model::{
    endpoint_rejected, hex_bytes, hex_digit_exec, lemma_hex_bytes_ascii, lemma_hex_bytes_push,
    uuid_parse, uuid_text, Capabilities, Endpoint, LocalPresence, Observation, PresenceId,
    ProtocolRange, ProviderId, ProviderKind,
};
use crate::service::discovery::presence_id_text;
use crate::transfer::send_job::chars_of;
use crate::discovery::registry::{normalize_endpoints, normalized};
use crate::net::SocketAddr;
use crate::text::{
    all_ascii, ascii_chars, ascii_to_string, decimal_bytes, decimal_text, hex_width_bytes,
    hex_width_text, lemma_decimal_reads_back, lemma_hex_width_reads_back, parse_unsigned, pow16,
    same_chars, unsigned_text_value,
};
use crate::time::{Duration, NANOS_PER_SEC};

verus! {

pub const HALO_SERVICE_TYPE: &'static str = "_halo._udp.local.";

#[derive(Clone, Debug)]
pub struct MdnsConfig {
    pub service_type: String,
    pub observation_ttl: Duration,
}

impl Default for MdnsConfig {
    fn default() -> (r: Self)
        ensures
            r.service_type@ == HALO_SERVICE_TYPE@,
            r.observation_ttl.spec_nanos() == 120 * NANOS_PER_SEC,
    {
        MdnsConfig {
            service_type: HALO_SERVICE_TYPE.to_owned(),
            observation_ttl: Duration::from_secs(120),
        }
    }
}

pub struct MdnsProvider {
    id: ProviderId,
    config: MdnsConfig,
}

impl MdnsProvider {
    pub closed spec fn spec_id(&self) -> ProviderId {
        self.id
    }

    pub closed spec fn spec_config(&self) -> MdnsConfig {
        self.config
    }

    pub fn new(config: MdnsConfig) -> (r: Self)
        ensures
            r.spec_config() == config,
            r.spec_id().spec_kind() == ProviderKind::Mdns,
            r.spec_id().spec_name() == "mdns"@,
    {
        MdnsProvider { id: ProviderId::builtin(ProviderKind::Mdns, "mdns"), config }
    }

    pub fn id(&self) -> (r: ProviderId)
        ensures
            r == self.spec_id(),
    {
        self.id.duplicate()
    }

    pub fn config(&self) -> (r: &MdnsConfig)
        ensures
            *r == self.spec_config(),
    {
        &self.config
    }
}

/// `._udp.local.`
pub open spec fn udp_local_suffix() -> Seq<u8> {
    seq![46u8, 95u8, 117u8, 100u8, 112u8, 46u8, 108u8, 111u8, 99u8, 97u8, 108u8, 46u8]
}

/// `._tcp.local.`
pub open spec fn tcp_local_suffix() -> Seq<u8> {
    seq![46u8, 95u8, 116u8, 99u8, 112u8, 46u8, 108u8, 111u8, 99u8, 97u8, 108u8, 46u8]
}

pub open spec fn ends_with(s: Seq<u8>, suffix: Seq<u8>) -> bool {
    suffix.len() <= s.len() && s.subrange(s.len() - suffix.len(), s.len() as int) == suffix
}

/// A DNS-SD service type: an underscore label ending in `._udp.local.` or
/// `._tcp.local.`.
pub open spec fn valid_service_type(s: Seq<u8>) -> bool {
    s.len() > 0 && s[0] == 95 && (ends_with(s, udp_local_suffix()) || ends_with(
        s,
        tcp_local_suffix(),
    ))
}

fn has_suffix(s: &[u8], udp: bool) -> (r: bool)
    ensures
        r == ends_with(s@, if udp { udp_local_suffix() } else { tcp_local_suffix() }),
{
    let suffix: [u8; 12] = if udp {
        [46u8, 95u8, 117u8, 100u8, 112u8, 46u8, 108u8, 111u8, 99u8, 97u8, 108u8, 46u8]
    } else {
        [46u8, 95u8, 116u8, 99u8, 112u8, 46u8, 108u8, 111u8, 99u8, 97u8, 108u8, 46u8]
    };
    assert(suffix@ =~= (if udp { udp_local_suffix() } else { tcp_local_suffix() }));
    if s.len() < 12 {
        return false;
    }
    let start = s.len() - 12;
    crate::be_bytes::bytes_equal(&s[start..s.len()], suffix.as_slice())
}

/// Accepts the service types that `mdns-sd` can browse.
pub fn validate_service_type(service_type: &str) -> (r: Result<(), ProviderError>)
    ensures
        r is Ok <==> valid_service_type(service_type.spec_bytes()),
        r matches Err(e) ==> e is InvalidConfig,
{
    let bytes = service_type.as_bytes();
    if bytes.len() > 0 && bytes[0] == 95 && (has_suffix(bytes, true) || has_suffix(bytes, false)) {
        Ok(())
    } else {
        Err(ProviderError::InvalidConfig("invalid mDNS service type".to_owned()))
    }
}

/// A usable mDNS configuration: a browsable service type and a non-zero
/// observation lifetime.
pub fn validate_mdns_config(config: &MdnsConfig) -> (r: Result<(), ProviderError>)
    ensures
        r is Ok <==> valid_service_type(encode_utf8(config.service_type@))
            && config.observation_ttl.spec_nanos() != 0,
        r matches Err(e) ==> e is InvalidConfig,
{
    validate_service_type(config.service_type.as_str())?;
    if config.observation_ttl.as_nanos() == 0 {
        return Err(ProviderError::InvalidConfig("mDNS observation TTL must be non-zero".to_owned()));
    }
    Ok(())
}

/// `halo-`
pub open spec fn instance_prefix() -> Seq<u8> {
    seq![104u8, 97u8, 108u8, 111u8, 45u8]
}

/// `.local.`
pub open spec fn local_suffix() -> Seq<u8> {
    seq![46u8, 108u8, 111u8, 99u8, 97u8, 108u8, 46u8]
}

/// What a local presence publishes through mDNS: its instance and host
/// names, and the TXT values `id`, `min`, `max` and `cap`.
pub struct MdnsPublication {
    pub instance: String,
    pub hostname: String,
    pub id: String,
    pub min: String,
    pub max: String,
    pub cap: String,
}

/// The publication of a local presence: the instance `halo-` and the first
/// six id bytes in hexadecimal, the host `<instance>.local.`, the id as its
/// UUID text, the version range in decimal and the capability bits as 16
/// hexadecimal digits. Each TXT value reads back as what it publishes.
pub fn mdns_publication(local: &LocalPresence) -> (r: MdnsPublication)
    ensures
        r.instance@ == ascii_chars(instance_prefix() + hex_bytes(local.presence_id.0@.subrange(0, 6))),
        r.hostname@ == ascii_chars(instance_prefix() + hex_bytes(local.presence_id.0@.subrange(0, 6))
            + local_suffix()),
        r.id@ == ascii_chars(uuid_text(local.presence_id.0@)),
        r.min@ == ascii_chars(decimal_bytes(local.protocol.lo() as nat)),
        r.max@ == ascii_chars(decimal_bytes(local.protocol.hi() as nat)),
        r.cap@ == ascii_chars(hex_width_bytes(local.capabilities.0 as nat, 16)),
        unsigned_text_value(r.min@, 10) == Some(local.protocol.lo() as nat),
        unsigned_text_value(r.max@, 10) == Some(local.protocol.hi() as nat),
        unsigned_text_value(r.cap@, 16) == Some(local.capabilities.0 as nat),
{
    let mut name: Vec<u8> = Vec::new();
    name.push(104u8);
    name.push(97u8);
    name.push(108u8);
    name.push(111u8);
    name.push(45u8);
    assert(name@ =~= instance_prefix() + hex_bytes(local.presence_id.0@.subrange(0, 0)));
    let mut i: usize = 0;
    while i < 6
        invariant
            i <= 6,
            name@ == instance_prefix() + hex_bytes(local.presence_id.0@.subrange(0, i as int)),
        decreases 6 - i,
    {
        let b = local.presence_id.0[i];
        proof {
            assert(local.presence_id.0@.subrange(0, i + 1) =~= local.presence_id.0@.subrange(
                0,
                i as int,
            ).push(b));
            lemma_hex_bytes_push(local.presence_id.0@.subrange(0, i as int), b);
        }
        name.push(hex_digit_exec(b / 16));
        name.push(hex_digit_exec(b % 16));
        i = i + 1;
        assert(name@ =~= instance_prefix() + hex_bytes(local.presence_id.0@.subrange(0, i as int)));
    }
    let ghost label = name@;
    proof {
        lemma_hex_bytes_ascii(local.presence_id.0@.subrange(0, 6));
        assert(all_ascii(label));
    }
    let instance = ascii_to_string(name.as_slice());
    name.push(46u8);
    name.push(108u8);
    name.push(111u8);
    name.push(99u8);
    name.push(97u8);
    name.push(108u8);
    name.push(46u8);
    assert(name@ =~= label + local_suffix());
    let hostname = ascii_to_string(name.as_slice());
    let lo = local.protocol.min();
    let hi = local.protocol.max();
    let bits = local.capabilities.0;
    proof {
        lemma_decimal_reads_back(lo as nat);
        lemma_decimal_reads_back(hi as nat);
        crate::text::lemma_pow16_u64();
        lemma_hex_width_reads_back(bits as nat, 16);
    }
    let min_text = decimal_text(lo as u64);
    let max_text = decimal_text(hi as u64);
    let cap_text = hex_width_text(bits, 16);
    MdnsPublication {
        instance,
        hostname,
        id: presence_id_text(&local.presence_id),
        min: ascii_to_string(min_text.as_slice()),
        max: ascii_to_string(max_text.as_slice()),
        cap: ascii_to_string(cap_text.as_slice()),
    }
}

/// The services resolved so far, by full name, with the presence each
/// stands for; no name appears twice.
pub struct ResolvedNames {
    entries: Vec<(Vec<char>, PresenceId)>,
}

/// The presence a full name was resolved to, if any.
pub open spec fn resolved_id(s: Seq<(Seq<char>, PresenceId)>, name: Seq<char>) -> Option<PresenceId> {
    if exists|i: int| 0 <= i < s.len() && (#[trigger] s[i]).0 == name {
        Some(s[choose|i: int| 0 <= i < s.len() && (#[trigger] s[i]).0 == name].1)
    } else {
        None
    }
}

pub open spec fn names_distinct(s: Seq<(Seq<char>, PresenceId)>) -> bool {
    forall|i: int, j: int| 0 <= i < j < s.len() ==> (#[trigger] s[i]).0 != (#[trigger] s[j]).0
}

impl View for ResolvedNames {
    type V = Seq<(Seq<char>, PresenceId)>;

    closed spec fn view(&self) -> Seq<(Seq<char>, PresenceId)> {
        self.entries@.map_values(|e: (Vec<char>, PresenceId)| (e.0@, e.1))
    }
}

impl ResolvedNames {
    pub fn new() -> (r: Self)
        ensures
            r@ == Seq::<(Seq<char>, PresenceId)>::empty(),
    {
        let r = ResolvedNames { entries: Vec::new() };
        assert(r@ =~= Seq::<(Seq<char>, PresenceId)>::empty());
        r
    }

    fn position(&self, name: &Vec<char>) -> (r: Option<usize>)
        ensures
            match r {
                Some(i) => i < self@.len() && self@[i as int].0 == name@,
                None => forall|k: int| 0 <= k < self@.len() ==> (#[trigger] self@[k]).0 != name@,
            },
    {
        let mut i: usize = 0;
        while i < self.entries.len()
            invariant
                i <= self.entries@.len(),
                forall|k: int| 0 <= k < i ==> (#[trigger] self@[k]).0 != name@,
            decreases self.entries@.len() - i,
        {
            if same_chars(&self.entries[i].0, name) {
                return Some(i);
            }
            i = i + 1;
        }
        None
    }

    /// Remembers the presence a resolved service stands for, replacing what
    /// the same name stood for before.
    pub fn insert(&mut self, name: &str, id: PresenceId)
        requires
            names_distinct(old(self)@),
        ensures
            names_distinct(final(self)@),
            resolved_id(final(self)@, name@) == Some(id),
            forall|other: Seq<char>|
                other != name@ ==> resolved_id(final(self)@, other) == resolved_id(old(self)@, other),
    {
        let key = chars_of(name);
        let ghost before = self@;
        match self.position(&key) {
            Some(i) => {
                self.entries.set(i, (key, id));
                proof {
                    assert(self@ =~= before.update(i as int, (name@, id)));
                    assert(self@[i as int].0 == name@);
                    assert forall|k: int| 0 <= k < self@.len() && self@[k].0 == name@ implies k == i by {
                        if k != i {
                            assert(before[k].0 == before[i as int].0);
                        }
                    }
                    assert forall|other: Seq<char>| other != name@ implies resolved_id(self@, other)
                        == resolved_id(before, other) by {
                        if exists|k: int| 0 <= k < before.len() && (#[trigger] before[k]).0 == other {
                            let k = choose|k: int| 0 <= k < before.len() && (#[trigger] before[k]).0 == other;
                            assert(self@[k].0 == other);
                            let k2 = choose|k: int| 0 <= k < self@.len() && (#[trigger] self@[k]).0 == other;
                            assert(k2 == k) by {
                                if k2 != k {
                                    assert(before[k2].0 == other);
                                }
                            }
                        } else {
                            assert forall|k: int| 0 <= k < self@.len() implies (#[trigger] self@[k]).0 != other by {
                                if k != i {
                                    assert(self@[k] == before[k]);
                                }
                            }
                        }
                    }
                }
            },
            None => {
                self.entries.push((key, id));
                proof {
                    assert(self@ =~= before.push((name@, id)));
                    let last = (before.len()) as int;
                    assert(self@[last].0 == name@);
                    assert forall|k: int| 0 <= k < self@.len() && self@[k].0 == name@ implies k == last by {
                        if k < last {
                            assert(before[k].0 == name@);
                        }
                    }
                    assert forall|other: Seq<char>| other != name@ implies resolved_id(self@, other)
                        == resolved_id(before, other) by {
                        if exists|k: int| 0 <= k < before.len() && (#[trigger] before[k]).0 == other {
                            let k = choose|k: int| 0 <= k < before.len() && (#[trigger] before[k]).0 == other;
                            assert(self@[k].0 == other);
                            let k2 = choose|k: int| 0 <= k < self@.len() && (#[trigger] self@[k]).0 == other;
                            assert(k2 == k) by {
                                if k2 != k {
                                    if k2 < last {
                                        assert(before[k2].0 == other);
                                    }
                                }
                            }
                        } else {
                            assert forall|k: int| 0 <= k < self@.len() implies (#[trigger] self@[k]).0 != other by {
                                if k < last {
                                    assert(self@[k] == before[k]);
                                }
                            }
                        }
                    }
                }
            },
        }
    }

    /// Forgets a removed service and returns the presence it stood for, if
    /// it had been resolved.
    pub fn remove(&mut self, name: &str) -> (r: Option<PresenceId>)
        requires
            names_distinct(old(self)@),
        ensures
            names_distinct(final(self)@),
            r == resolved_id(old(self)@, name@),
            resolved_id(final(self)@, name@) is None,
            forall|other: Seq<char>|
                other != name@ ==> resolved_id(final(self)@, other) == resolved_id(old(self)@, other),
    {
        let key = chars_of(name);
        let ghost before = self@;
        match self.position(&key) {
            None => {
                assert(!exists|k: int| 0 <= k < before.len() && (#[trigger] before[k]).0 == name@);
                None
            },
            Some(i) => {
                let (_, id) = self.entries.remove(i);
                proof {
                    assert(self@ =~= before.remove(i as int));
                    let c = choose|k: int| 0 <= k < before.len() && (#[trigger] before[k]).0 == name@;
                    assert(c == i) by {
                        if c != i {
                            assert(before[c].0 == before[i as int].0);
                        }
                    }
                    assert forall|k: int| 0 <= k < self@.len() implies (#[trigger] self@[k]).0 != name@ by {
                        if k < i {
                            assert(self@[k] == before[k]);
                        } else {
                            assert(self@[k] == before[k + 1]);
                        }
                    }
                    assert forall|a: int, b: int| 0 <= a < b < self@.len() implies (#[trigger] self@[a]).0
                        != (#[trigger] self@[b]).0 by {
                        let a0 = if a < i { a } else { a + 1 };
                        let b0 = if b < i { b } else { b + 1 };
                        assert(self@[a] == before[a0]);
                        assert(self@[b] == before[b0]);
                    }
                    assert forall|other: Seq<char>| other != name@ implies resolved_id(self@, other)
                        == resolved_id(before, other) by {
                        if exists|k: int| 0 <= k < before.len() && (#[trigger] before[k]).0 == other {
                            let k = choose|k: int| 0 <= k < before.len() && (#[trigger] before[k]).0 == other;
                            assert(k != i);
                            let k1 = if k < i { k } else { k - 1 };
                            assert(self@[k1] == before[k]);
                            let k2 = choose|k: int| 0 <= k < self@.len() && (#[trigger] self@[k]).0 == other;
                            let k20 = if k2 < i { k2 } else { k2 + 1 };
                            assert(self@[k2] == before[k20]);
                            assert(k20 == k) by {
                                if k20 != k {
                                    assert(before[k20].0 == before[k].0);
                                }
                            }
                        } else {
                            assert forall|k: int| 0 <= k < self@.len() implies (#[trigger] self@[k]).0 != other by {
                                let k0 = if k < i { k } else { k + 1 };
                                assert(self@[k] == before[k0]);
                            }
                        }
                    }
                }
                Some(id)
            },
        }
    }
}

/// One address a resolved service was found at.
#[derive(Clone, Copy, Debug, PartialEq, Eq)]
pub enum ResolvedAddress {
    V4([u8; 4]),
    V6 { ip: [u8; 16], scope_id: u32 },
}

/// The socket address of a resolved address at the service's port.
pub open spec fn resolved_socket(a: ResolvedAddress, port: u16) -> SocketAddr {
    match a {
        ResolvedAddress::V4(ip) => SocketAddr::V4 { ip, port },
        ResolvedAddress::V6 { ip, scope_id } => SocketAddr::V6 { ip, port, flowinfo: 0, scope_id },
    }
}

/// The QUIC endpoints of the addresses that make one, in order.
pub open spec fn resolved_endpoints(addresses: Seq<ResolvedAddress>, port: u16) -> Seq<SocketAddr>
    decreases addresses.len(),
{
    if addresses.len() == 0 {
        Seq::empty()
    } else {
        let rest = resolved_endpoints(addresses.drop_last(), port);
        let a = resolved_socket(addresses.last(), port);
        if endpoint_rejected(a) {
            rest
        } else {
            rest.push(a)
        }
    }
}

/// The TXT values of a resolved service that make an observation: a
/// presence id, a version range in decimal and capability bits in
/// hexadecimal.
pub open spec fn resolved_fields(
    id: Option<&str>,
    min: Option<&str>,
    max: Option<&str>,
    cap: Option<&str>,
) -> Option<(Seq<u8>, nat, nat, nat)> {
    match (id, min, max, cap) {
        (Some(i), Some(lo), Some(hi), Some(c)) => match (
            uuid_parse(i@),
            unsigned_text_value(lo@, 10),
            unsigned_text_value(hi@, 10),
            unsigned_text_value(c@, 16),
        ) {
            (Some(b), Some(l), Some(h), Some(k)) => if l <= u16::MAX && h <= u16::MAX && k
                <= u64::MAX && ProtocolRange::range_ok(l as u16, h as u16) {
                Some((b, l, h, k))
            } else {
                None
            },
            _ => None,
        },
        _ => None,
    }
}

/// The observation a resolved service stands for: none unless its TXT
/// record holds a presence id, a valid version range and capability bits;
/// otherwise its endpoints are the QUIC endpoints of its addresses, sorted
/// and without repeats, observed for `ttl` with no sequence or round trip.
pub fn resolved_observation(
    provider: &ProviderId,
    id: Option<&str>,
    min: Option<&str>,
    max: Option<&str>,
    cap: Option<&str>,
    port: u16,
    addresses: &Vec<ResolvedAddress>,
    ttl: Duration,
) -> (r: Option<Observation>)
    ensures
        match resolved_fields(id, min, max, cap) {
            None => r is None,
            Some((b, l, h, k)) => r matches Some(o) && {
                &&& o.provider == *provider
                &&& o.presence_id.0@ == b
                &&& o.protocol.lo() == l && o.protocol.hi() == h
                &&& o.capabilities.0 == k
                &&& o.sequence == 0
                &&& o.ttl == ttl
                &&& o.round_trip_time is None
                &&& exists|candidates: Seq<Endpoint>|
                    candidates.map_values(|e: Endpoint| e.spec_address()) == resolved_endpoints(
                        addresses@,
                        port,
                    ) && normalized(o.endpoints@, candidates, candidates.len() as int)
            },
        },
{
    let (id, min, max, cap) = match (id, min, max, cap) {
        (Some(i), Some(lo), Some(hi), Some(c)) => (i, lo, hi, c),
        _ => return None,
    };
    let presence_id = match PresenceId::parse(id) {
        Ok(p) => p,
        Err(_) => return None,
    };
    let lo = match parse_unsigned(min, 10, 65535) {
        Some(v) => v as u16,
        None => return None,
    };
    let hi = match parse_unsigned(max, 10, 65535) {
        Some(v) => v as u16,
        None => return None,
    };
    let protocol = match ProtocolRange::new(lo, hi) {
        Ok(p) => p,
        Err(_) => return None,
    };
    let bits = match parse_unsigned(cap, 16, u64::MAX) {
        Some(v) => v,
        None => return None,
    };
    let mut candidates: Vec<Endpoint> = Vec::new();
    let mut i: usize = 0;
    while i < addresses.len()
        invariant
            i <= addresses@.len(),
            candidates@.map_values(|e: Endpoint| e.spec_address()) == resolved_endpoints(
                addresses@.subrange(0, i as int),
                port,
            ),
        decreases addresses@.len() - i,
    {
        let socket = match addresses[i] {
            ResolvedAddress::V4(ip) => SocketAddr::V4 { ip, port },
            ResolvedAddress::V6 { ip, scope_id } => SocketAddr::V6 {
                ip,
                port,
                flowinfo: 0,
                scope_id,
            },
        };
        let ghost before = candidates@;
        proof {
            assert(addresses@.subrange(0, i + 1).drop_last() =~= addresses@.subrange(0, i as int));
            assert(addresses@.subrange(0, i + 1).last() == addresses@[i as int]);
        }
        match Endpoint::quic(socket) {
            Ok(e) => {
                candidates.push(e);
                assert(candidates@.map_values(|e: Endpoint| e.spec_address()) =~= before.map_values(
                    |e: Endpoint| e.spec_address(),
                ).push(socket));
            },
            Err(_) => {},
        }
        i = i + 1;
    }
    assert(addresses@.subrange(0, i as int) =~= addresses@);
    let endpoints = normalize_endpoints(&candidates, candidates.len());
    Some(
        Observation {
            provider: provider.duplicate(),
            presence_id,
            protocol,
            capabilities: Capabilities::from_bits(bits),
            sequence: 0,
            endpoints,
            ttl,
            round_trip_time: None,
        },
    )
}

} // verus!

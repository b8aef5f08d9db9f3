//! LAN presence over IPv4 and IPv6 multicast: configuration checks, the
//! interface-name filter, and the decisions of the announce/listen loop.
//! Sockets, timers and interface enumeration stay with the caller, which
//! feeds each tick and datagram in and carries out what comes back.

use vstd::prelude::*;
use vstd::string::StringSliceAdditionalSpecFns;

use crate::be_bytes::{read_be64, read_u64};
use crate::discovery::error::ProviderError;
use crate::discovery::model::{
    endpoint_rejected, Endpoint, LocalPresence, Observation, PresenceId, ProviderId, ProviderKind,
};
use crate::discovery::wire::{
    spec_decoded_fields, spec_encode, spec_wire_error, MessageKind, PresenceMessage, PACKET_LEN,
};
use crate::net::SocketAddr;
use crate::time::{Duration, NANOS_PER_SEC};

verus! {

pub const PRESENCE_PORT: u16 = 44_721;

/// How long a sent query's nonce is remembered for matching responses.
pub const QUERY_MEMORY_SECS: u64 = 10;

/// The IPv4 presence group `239.192.72.65`.
pub fn presence_ipv4_group() -> (r: [u8; 4])
    ensures
        r@ == seq![239u8, 192u8, 72u8, 65u8],
{
    let r: [u8; 4] = [239u8, 192u8, 72u8, 65u8];
    assert(r@ =~= seq![239u8, 192u8, 72u8, 65u8]);
    r
}

/// The IPv6 presence group `ff12::4841:4c4f`.
pub fn presence_ipv6_group() -> (r: [u8; 16])
    ensures
        r@ == seq![0xffu8, 0x12u8, 0u8, 0u8, 0u8, 0u8, 0u8, 0u8, 0u8, 0u8, 0u8, 0u8, 0x48u8, 0x41u8, 0x4cu8, 0x4fu8],
{
    let r: [u8; 16] = [0xffu8, 0x12u8, 0u8, 0u8, 0u8, 0u8, 0u8, 0u8, 0u8, 0u8, 0u8, 0u8, 0x48u8, 0x41u8, 0x4cu8, 0x4fu8];
    assert(r@ =~= seq![0xffu8, 0x12u8, 0u8, 0u8, 0u8, 0u8, 0u8, 0u8, 0u8, 0u8, 0u8, 0u8, 0x48u8, 0x41u8, 0x4cu8, 0x4fu8]);
    r
}

#[derive(Clone, Copy, Debug, PartialEq, Eq)]
pub struct PresenceV4Config {
    pub group: [u8; 4],
    pub port: u16,
    pub announce_interval: Duration,
    pub observation_ttl: Duration,
    pub include_directed_broadcast: bool,
}

impl Default for PresenceV4Config {
    fn default() -> (r: Self)
        ensures
            r.group@ == seq![239u8, 192u8, 72u8, 65u8],
            r.port == PRESENCE_PORT,
            r.announce_interval.spec_nanos() == 4 * NANOS_PER_SEC,
            r.observation_ttl.spec_nanos() == 12 * NANOS_PER_SEC,
            r.include_directed_broadcast,
    {
        PresenceV4Config {
            group: presence_ipv4_group(),
            port: PRESENCE_PORT,
            announce_interval: Duration::from_secs(4),
            observation_ttl: Duration::from_secs(12),
            include_directed_broadcast: true,
        }
    }
}

#[derive(Clone, Copy, Debug, PartialEq, Eq)]
pub struct PresenceV6Config {
    pub group: [u8; 16],
    pub port: u16,
    pub announce_interval: Duration,
    pub observation_ttl: Duration,
}

impl Default for PresenceV6Config {
    fn default() -> (r: Self)
        ensures
            r.group@[0] == 0xff,
            r.port == PRESENCE_PORT,
            r.announce_interval.spec_nanos() == 4 * NANOS_PER_SEC,
            r.observation_ttl.spec_nanos() == 12 * NANOS_PER_SEC,
    {
        PresenceV6Config {
            group: presence_ipv6_group(),
            port: PRESENCE_PORT,
            announce_interval: Duration::from_secs(4),
            observation_ttl: Duration::from_secs(12),
        }
    }
}

/// A multicast group, a non-zero port and non-zero timing.
pub open spec fn v4_config_ok(config: PresenceV4Config) -> bool {
    224 <= config.group@[0] <= 239 && config.port != 0 && config.announce_interval.spec_nanos() != 0
        && config.observation_ttl.spec_nanos() != 0
}

pub open spec fn v6_config_ok(config: PresenceV6Config) -> bool {
    config.group@[0] == 0xff && config.port != 0 && config.announce_interval.spec_nanos() != 0
        && config.observation_ttl.spec_nanos() != 0
}

pub fn validate_v4_config(config: &PresenceV4Config) -> (r: Result<(), ProviderError>)
    ensures
        r is Ok <==> v4_config_ok(*config),
        r matches Err(e) ==> e is InvalidConfig,
{
    if !(config.group[0] >= 224 && config.group[0] <= 239) || config.port == 0
        || config.announce_interval.is_zero() || config.observation_ttl.is_zero() {
        return Err(
            ProviderError::InvalidConfig("invalid IPv4 presence group, port, or timing".to_owned()),
        );
    }
    Ok(())
}

pub fn validate_v6_config(config: &PresenceV6Config) -> (r: Result<(), ProviderError>)
    ensures
        r is Ok <==> v6_config_ok(*config),
        r matches Err(e) ==> e is InvalidConfig,
{
    if config.group[0] != 0xff || config.port == 0 || config.announce_interval.is_zero()
        || config.observation_ttl.is_zero() {
        return Err(
            ProviderError::InvalidConfig("invalid IPv6 presence group, port, or timing".to_owned()),
        );
    }
    Ok(())
}

pub struct PresenceV4Provider {
    id: ProviderId,
    config: PresenceV4Config,
}

impl PresenceV4Provider {
    pub closed spec fn spec_id(&self) -> ProviderId {
        self.id
    }

    pub closed spec fn spec_config(&self) -> PresenceV4Config {
        self.config
    }

    pub fn new(config: PresenceV4Config) -> (r: Self)
        ensures
            r.spec_config() == config,
            r.spec_id().spec_kind() == ProviderKind::PresenceV4,
            r.spec_id().spec_name() == "presence-v4"@,
    {
        PresenceV4Provider {
            id: ProviderId::builtin(ProviderKind::PresenceV4, "presence-v4"),
            config,
        }
    }

    pub fn id(&self) -> (r: ProviderId)
        ensures
            r == self.spec_id(),
    {
        self.id.duplicate()
    }

    pub fn config(&self) -> (r: PresenceV4Config)
        ensures
            r == self.spec_config(),
    {
        self.config
    }
}

pub struct PresenceV6Provider {
    id: ProviderId,
    config: PresenceV6Config,
}

impl PresenceV6Provider {
    pub closed spec fn spec_id(&self) -> ProviderId {
        self.id
    }

    pub closed spec fn spec_config(&self) -> PresenceV6Config {
        self.config
    }

    pub fn new(config: PresenceV6Config) -> (r: Self)
        ensures
            r.spec_config() == config,
            r.spec_id().spec_kind() == ProviderKind::PresenceV6,
            r.spec_id().spec_name() == "presence-v6"@,
    {
        PresenceV6Provider {
            id: ProviderId::builtin(ProviderKind::PresenceV6, "presence-v6"),
            config,
        }
    }

    pub fn id(&self) -> (r: ProviderId)
        ensures
            r == self.spec_id(),
    {
        self.id.duplicate()
    }

    pub fn config(&self) -> (r: PresenceV6Config)
        ensures
            r == self.spec_config(),
    {
        self.config
    }
}

/// ASCII lower-casing of one byte; other bytes are left alone.
pub open spec fn ascii_lower(b: u8) -> u8 {
    if 65 <= b <= 90 {
        (b + 32) as u8
    } else {
        b
    }
}

/// Whether the lower-cased `name` starts with `prefix`.
pub open spec fn starts_with_lower(name: Seq<u8>, prefix: Seq<u8>) -> bool {
    prefix.len() <= name.len() && forall|i: int|
        0 <= i < prefix.len() ==> ascii_lower(#[trigger] name[i]) == prefix[i]
}

/// Interface-name prefixes of VPN, tunnel and peer-to-peer links.
pub open spec fn tunnel_prefixes() -> Seq<Seq<u8>> {
    seq![
        seq![117u8, 116u8, 117u8, 110u8],
        seq![116u8, 117u8, 110u8],
        seq![116u8, 97u8, 112u8],
        seq![119u8, 103u8],
        seq![119u8, 105u8, 114u8, 101u8, 103u8, 117u8, 97u8, 114u8, 100u8],
        seq![116u8, 97u8, 105u8, 108u8, 115u8, 99u8, 97u8, 108u8, 101u8],
        seq![105u8, 112u8, 115u8, 101u8, 99u8],
        seq![112u8, 112u8, 112u8],
        seq![97u8, 119u8, 100u8, 108u8],
        seq![108u8, 108u8, 119u8],
    ]
}

pub open spec fn spec_is_probably_tunnel(name: Seq<u8>) -> bool {
    exists|i: int| 0 <= i < 10 && #[trigger] starts_with_lower(name, tunnel_prefixes()[i])
}

fn starts_with_lower_exec(name: &[u8], prefix: &[u8]) -> (r: bool)
    ensures
        r == starts_with_lower(name@, prefix@),
{
    if prefix.len() > name.len() {
        return false;
    }
    let mut i: usize = 0;
    while i < prefix.len()
        invariant
            i <= prefix@.len(),
            prefix@.len() <= name@.len(),
            forall|j: int| 0 <= j < i ==> ascii_lower(#[trigger] name@[j]) == prefix@[j],
        decreases prefix@.len() - i,
    {
        let b = name[i];
        let lower = if b >= 65 && b <= 90 {
            b + 32
        } else {
            b
        };
        if lower != prefix[i] {
            return false;
        }
        i = i + 1;
    }
    true
}

fn tunnel_prefix(i: usize) -> (r: Vec<u8>)
    requires
        i < 10,
    ensures
        r@ == tunnel_prefixes()[i as int],
{
    let r: Vec<u8> = if i == 0 {
        vec![117u8, 116u8, 117u8, 110u8]
    } else if i == 1 {
        vec![116u8, 117u8, 110u8]
    } else if i == 2 {
        vec![116u8, 97u8, 112u8]
    } else if i == 3 {
        vec![119u8, 103u8]
    } else if i == 4 {
        vec![119u8, 105u8, 114u8, 101u8, 103u8, 117u8, 97u8, 114u8, 100u8]
    } else if i == 5 {
        vec![116u8, 97u8, 105u8, 108u8, 115u8, 99u8, 97u8, 108u8, 101u8]
    } else if i == 6 {
        vec![105u8, 112u8, 115u8, 101u8, 99u8]
    } else if i == 7 {
        vec![112u8, 112u8, 112u8]
    } else if i == 8 {
        vec![97u8, 119u8, 100u8, 108u8]
    } else {
        vec![108u8, 108u8, 119u8]
    };
    assert(r@ =~= tunnel_prefixes()[i as int]);
    r
}

/// Whether an interface name looks like a VPN, tunnel or AWDL link, whose
/// addresses are not advertised for LAN discovery.
pub fn is_probably_tunnel(name: &str) -> (r: bool)
    ensures
        r == spec_is_probably_tunnel(name.spec_bytes()),
{
    let bytes = name.as_bytes();
    let mut i: usize = 0;
    while i < 10
        invariant
            i <= 10,
            bytes@ == name.spec_bytes(),
            forall|j: int| 0 <= j < i ==> !starts_with_lower(bytes@, #[trigger] tunnel_prefixes()[j]),
        decreases 10 - i,
    {
        let prefix = tunnel_prefix(i);
        if starts_with_lower_exec(bytes, prefix.as_slice()) {
            assert(starts_with_lower(name.spec_bytes(), tunnel_prefixes()[i as int]));
            return true;
        }
        i = i + 1;
    }
    false
}

/// The endpoint a packet's sender offers: the source IP with the advertised
/// QUIC port, if that makes a valid endpoint.
pub fn endpoint_from_source(source: SocketAddr, quic_port: u16) -> (r: Option<Endpoint>)
    ensures
        r is Some <==> !endpoint_rejected(source.spec_with_port(quic_port)),
        r matches Some(e) ==> e.spec_address() == source.spec_with_port(quic_port),
{
    let mut address = source;
    address.set_port(quic_port);
    match Endpoint::quic(address) {
        Ok(e) => Some(e),
        Err(_) => None,
    }
}

/// Where a query's response goes: the query's source IP at its reply port.
pub fn response_target(source: SocketAddr, reply_port: u16) -> (r: SocketAddr)
    ensures
        r == source.spec_with_port(reply_port),
{
    let mut target = source;
    target.set_port(reply_port);
    target
}

/// A query nonce: the first eight bytes of a random version-4 UUID, read
/// big-endian, so bits 12 to 15 hold the UUID version 4. `None` when the
/// operating system generator fails.
pub fn random_nonce() -> (r: Option<u64>)
    ensures
        r matches Some(n) ==> (n / 4096) % 16 == 4,
{
    let id = match PresenceId::random() {
        Some(id) => id,
        None => return None,
    };
    let bytes = id.as_bytes();
    let r = read_u64(bytes.as_slice(), 0);
    proof {
        let b0 = bytes@[0];
        let b1 = bytes@[1];
        let b2 = bytes@[2];
        let b3 = bytes@[3];
        let b4 = bytes@[4];
        let b5 = bytes@[5];
        let b6 = bytes@[6];
        let b7 = bytes@[7];
        assert(b6 / 16 == 4);
        let x = read_be64(bytes@, 0);
        assert(x == ((b0 as u64) << 56u64) | ((b1 as u64) << 48u64) | ((b2 as u64) << 40u64) | ((
        b3 as u64) << 32u64) | ((b4 as u64) << 24u64) | ((b5 as u64) << 16u64) | ((b6 as u64)
            << 8u64) | (b7 as u64));
        assert((x / 4096) % 16 == b6 / 16) by (bit_vector)
            requires
                x == ((b0 as u64) << 56u64) | ((b1 as u64) << 48u64) | ((b2 as u64) << 40u64) | ((
                b3 as u64) << 32u64) | ((b4 as u64) << 24u64) | ((b5 as u64) << 16u64) | ((
                b6 as u64) << 8u64) | (b7 as u64),
        ;
    }
    Some(r)
}

/// A query still waiting for responses.
#[derive(Clone, Copy, Debug, PartialEq, Eq)]
pub struct PendingQuery {
    pub nonce: u64,
    pub sent_at: Duration,
}

/// Time since `then`, zero if `then` is in the future.
pub open spec fn elapsed(now: Duration, then: Duration) -> int {
    if now.spec_nanos() >= then.spec_nanos() {
        now.spec_nanos() - then.spec_nanos()
    } else {
        0
    }
}

/// The queries sent less than ten seconds before `now`, in order.
pub open spec fn fresh_queries(s: Seq<PendingQuery>, now: Duration) -> Seq<PendingQuery>
    decreases s.len(),
{
    if s.len() == 0 {
        s
    } else {
        let rest = fresh_queries(s.drop_last(), now);
        if elapsed(now, s.last().sent_at) < QUERY_MEMORY_SECS * NANOS_PER_SEC {
            rest.push(s.last())
        } else {
            rest
        }
    }
}

/// The queries with `nonce` sent at `now` recorded: an earlier query with
/// the same nonce is overwritten in place, otherwise the query is appended.
pub open spec fn record_query(s: Seq<PendingQuery>, nonce: u64, now: Duration) -> Seq<PendingQuery> {
    let q = PendingQuery { nonce, sent_at: now };
    if exists|i: int| 0 <= i < s.len() && #[trigger] s[i].nonce == nonce {
        s.update(choose|i: int| 0 <= i < s.len() && #[trigger] s[i].nonce == nonce, q)
    } else {
        s.push(q)
    }
}

/// When the query carrying `nonce` was sent, if it is remembered.
pub open spec fn sent_at_of(s: Seq<PendingQuery>, nonce: u64) -> Option<Duration> {
    if exists|i: int| 0 <= i < s.len() && #[trigger] s[i].nonce == nonce {
        Some(s[choose|i: int| 0 <= i < s.len() && #[trigger] s[i].nonce == nonce].sent_at)
    } else {
        None
    }
}

pub open spec fn nonces_unique(s: Seq<PendingQuery>) -> bool {
    forall|i: int, j: int| 0 <= i < j < s.len() ==> #[trigger] s[i].nonce != #[trigger] s[j].nonce
}

proof fn lemma_fresh_members(s: Seq<PendingQuery>, now: Duration)
    ensures
        forall|a: int|
            0 <= a < fresh_queries(s, now).len() ==> exists|b: int|
                0 <= b < s.len() && #[trigger] fresh_queries(s, now)[a] == s[b],
    decreases s.len(),
{
    if s.len() > 0 {
        let t = s.drop_last();
        lemma_fresh_members(t, now);
        let f = fresh_queries(s, now);
        assert forall|a: int| 0 <= a < f.len() implies exists|b: int|
            0 <= b < s.len() && #[trigger] f[a] == s[b] by {
            if a < fresh_queries(t, now).len() {
                let b = choose|b: int| 0 <= b < t.len() && fresh_queries(t, now)[a] == t[b];
                assert(f[a] == s[b]);
            } else {
                assert(f[a] == s[s.len() - 1]);
            }
        }
    }
}

proof fn lemma_fresh_unique(s: Seq<PendingQuery>, now: Duration)
    requires
        nonces_unique(s),
    ensures
        nonces_unique(fresh_queries(s, now)),
    decreases s.len(),
{
    if s.len() > 0 {
        let t = s.drop_last();
        assert(nonces_unique(t));
        lemma_fresh_unique(t, now);
        lemma_fresh_members(t, now);
        let ft = fresh_queries(t, now);
        let f = fresh_queries(s, now);
        if f.len() > ft.len() {
            assert forall|a: int, b: int| 0 <= a < b < f.len() implies #[trigger] f[a].nonce
                != #[trigger] f[b].nonce by {
                if b == f.len() - 1 {
                    let c = choose|c: int| 0 <= c < t.len() && #[trigger] ft[a] == t[c];
                    assert(f[a] == s[c]);
                    assert(f[b] == s[s.len() - 1]);
                } else {
                    assert(f[a] == ft[a] && f[b] == ft[b]);
                }
            }
        }
    }
}

/// What the loop does with one received datagram.
pub enum DatagramAction {
    /// Not a presence packet, or our own.
    Ignore,
    /// The peer said goodbye: withdraw this provider's evidence for it.
    Withdraw(PresenceId),
    /// Send `reply` (to a query) and submit `observation`, where present.
    Handle { reply: Option<([u8; PACKET_LEN], SocketAddr)>, observation: Option<Observation> },
}

/// The announce/listen state of one presence provider: the packet sequence
/// number, whether the first tick (a query) is still to come, and the
/// queries awaiting responses.
pub struct PresenceLoop {
    sequence: u64,
    first_tick: bool,
    pending: Vec<PendingQuery>,
}

impl PresenceLoop {
    pub closed spec fn spec_sequence(&self) -> u64 {
        self.sequence
    }

    pub closed spec fn spec_first_tick(&self) -> bool {
        self.first_tick
    }

    pub closed spec fn spec_pending(&self) -> Seq<PendingQuery> {
        self.pending@
    }

    pub open spec fn wf(&self) -> bool {
        nonces_unique(self.spec_pending())
    }

    pub fn new() -> (r: Self)
        ensures
            r.spec_sequence() == 0,
            r.spec_first_tick(),
            r.spec_pending().len() == 0,
            r.wf(),
    {
        PresenceLoop { sequence: 0, first_tick: true, pending: Vec::new() }
    }

    pub fn sequence(&self) -> (r: u64)
        ensures
            r == self.spec_sequence(),
    {
        self.sequence
    }

    /// One announce tick: the first is a query, the rest announcements.
    /// The caller sends a query from each egress socket with that socket's
    /// port as the reply port, and an announcement as it is.
    pub fn on_tick(&mut self, local: &LocalPresence, nonce: u64, now: Duration) -> (r:
        PresenceMessage)
        requires
            old(self).wf(),
        ensures
            final(self).wf(),
            final(self).spec_sequence() == (if old(self).spec_sequence() == u64::MAX {
                0
            } else {
                old(self).spec_sequence() + 1
            }),
            !final(self).spec_first_tick(),
            r == PresenceMessage::from_local_spec(
                *local,
                if old(self).spec_first_tick() {
                    MessageKind::Query
                } else {
                    MessageKind::Announce
                },
                final(self).spec_sequence(),
                nonce,
            ),
            final(self).spec_pending() == fresh_queries(
                if old(self).spec_first_tick() {
                    record_query(old(self).spec_pending(), nonce, now)
                } else {
                    old(self).spec_pending()
                },
                now,
            ),
    {
        self.sequence = self.sequence.wrapping_add(1);
        let kind = if self.first_tick {
            MessageKind::Query
        } else {
            MessageKind::Announce
        };
        if self.first_tick {
            self.record(nonce, now);
        }
        self.forget_stale(now);
        self.first_tick = false;
        PresenceMessage::from_local(local, kind, self.sequence, nonce)
    }

    fn record(&mut self, nonce: u64, now: Duration)
        requires
            old(self).wf(),
        ensures
            final(self).wf(),
            final(self).spec_pending() == record_query(old(self).spec_pending(), nonce, now),
            final(self).sequence == old(self).sequence,
            final(self).first_tick == old(self).first_tick,
    {
        let ghost s = self.pending@;
        let q = PendingQuery { nonce, sent_at: now };
        let mut i: usize = 0;
        let mut found: bool = false;
        while i < self.pending.len()
            invariant_except_break
                i <= s.len(),
                self.pending@ == s,
                !found,
                forall|j: int| 0 <= j < i ==> s[j].nonce != nonce,
            ensures
                i <= s.len(),
                self.pending@ == s,
                found ==> i < s.len() && s[i as int].nonce == nonce,
                !found ==> forall|j: int| 0 <= j < s.len() ==> s[j].nonce != nonce,
            decreases s.len() - i,
        {
            if self.pending[i].nonce == nonce {
                found = true;
                break;
            }
            i = i + 1;
        }
        if found {
            proof {
                assert(exists|k: int| 0 <= k < s.len() && #[trigger] s[k].nonce == nonce);
                let k = choose|k: int| 0 <= k < s.len() && #[trigger] s[k].nonce == nonce;
                assert(k == i as int);
            }
            self.pending[i] = q;
            proof {
                let t = self.pending@;
                assert(t == s.update(i as int, q));
                assert forall|a: int, b: int| 0 <= a < b < t.len() implies #[trigger] t[a].nonce
                    != #[trigger] t[b].nonce by {
                    assert(t[a].nonce == s[a].nonce);
                    assert(t[b].nonce == s[b].nonce);
                }
            }
        } else {
            self.pending.push(q);
            proof {
                let t = self.pending@;
                assert forall|a: int, b: int| 0 <= a < b < t.len() implies #[trigger] t[a].nonce
                    != #[trigger] t[b].nonce by {
                    if b == s.len() {
                        assert(t[a] == s[a]);
                    } else {
                        assert(t[a] == s[a] && t[b] == s[b]);
                    }
                }
            }
        }
    }

    fn forget_stale(&mut self, now: Duration)
        requires
            old(self).wf(),
        ensures
            final(self).wf(),
            final(self).spec_pending() == fresh_queries(old(self).spec_pending(), now),
            final(self).sequence == old(self).sequence,
            final(self).first_tick == old(self).first_tick,
    {
        let ghost s = self.pending@;
        let mut kept: Vec<PendingQuery> = Vec::new();
        let mut i: usize = 0;
        while i < self.pending.len()
            invariant
                i <= s.len(),
                self.pending@ == s,
                kept@ == fresh_queries(s.subrange(0, i as int), now),
            decreases s.len() - i,
        {
            proof {
                assert(s.subrange(0, i + 1).drop_last() =~= s.subrange(0, i as int));
            }
            let q = self.pending[i];
            let age = now.saturating_sub(q.sent_at);
            if age.as_nanos() < (QUERY_MEMORY_SECS as u128) * NANOS_PER_SEC {
                kept.push(q);
            }
            i = i + 1;
        }
        proof {
            assert(s.subrange(0, i as int) =~= s);
            lemma_fresh_unique(s, now);
        }
        self.pending = kept;
    }

    fn sent_at(&self, nonce: u64) -> (r: Option<Duration>)
        requires
            self.wf(),
        ensures
            r == sent_at_of(self.spec_pending(), nonce),
    {
        let ghost s = self.pending@;
        let mut i: usize = 0;
        while i < self.pending.len()
            invariant
                i <= s.len(),
                self.pending@ == s,
                nonces_unique(s),
                forall|j: int| 0 <= j < i ==> s[j].nonce != nonce,
            decreases s.len() - i,
        {
            if self.pending[i].nonce == nonce {
                proof {
                    let k = choose|k: int| 0 <= k < s.len() && #[trigger] s[k].nonce == nonce;
                    assert(k == i as int);
                }
                return Some(self.pending[i].sent_at);
            }
            i = i + 1;
        }
        None
    }

    /// The goodbye packet sent when the provider stops.
    pub fn goodbye(&self, local: &LocalPresence) -> (r: [u8; PACKET_LEN])
        ensures
            r@ == spec_encode(
                PresenceMessage::from_local_spec(*local, MessageKind::Goodbye, self.spec_sequence(), 0),
            ),
    {
        PresenceMessage::from_local(local, MessageKind::Goodbye, self.sequence, 0).encode()
    }

    /// Decides what to do with one datagram received on the group socket.
    pub fn on_datagram(
        &self,
        local: &LocalPresence,
        provider: &ProviderId,
        bytes: &[u8],
        source: SocketAddr,
        ttl: Duration,
        now: Duration,
    ) -> (r: DatagramAction)
        requires
            self.wf(),
        ensures
            spec_wire_error(bytes@) is Some ==> r is Ignore,
            spec_wire_error(bytes@) is None && bytes@.subrange(12, 28) == local.presence_id.0@
                ==> r is Ignore,
            spec_wire_error(bytes@) is None && bytes@.subrange(12, 28) != local.presence_id.0@
                ==> match r {
                DatagramAction::Ignore => false,
                DatagramAction::Withdraw(id) => bytes@[9] == 4 && id.0@ == bytes@.subrange(12, 28),
                DatagramAction::Handle { reply, observation } => {
                    &&& bytes@[9] != 4
                    &&& (reply is Some <==> bytes@[9] == 1)
                    &&& reply matches Some((packet, target)) ==> packet@ == spec_encode(
                        PresenceMessage::from_local_spec(
                            *local,
                            MessageKind::Response,
                            self.spec_sequence(),
                            read_be64(bytes@, 50),
                        ),
                    ) && target == source.spec_with_port(read_be16_of(bytes@, 10))
                    &&& (observation is Some <==> !endpoint_rejected(
                        source.spec_with_port(read_be16_of(bytes@, 28)),
                    ))
                    &&& observation matches Some(o) ==> {
                        &&& o.provider == *provider
                        &&& o.presence_id.0@ == bytes@.subrange(12, 28)
                        &&& o.protocol.lo() == read_be16_of(bytes@, 30)
                        &&& o.protocol.hi() == read_be16_of(bytes@, 32)
                        &&& o.capabilities.0 == read_be64(bytes@, 34)
                        &&& o.sequence == read_be64(bytes@, 42)
                        &&& o.endpoints@.len() == 1
                        &&& o.endpoints@[0].spec_address() == source.spec_with_port(
                            read_be16_of(bytes@, 28),
                        )
                        &&& o.ttl == ttl
                        &&& if bytes@[9] == 2 && sent_at_of(
                            self.spec_pending(),
                            read_be64(bytes@, 50),
                        ) is Some {
                            o.round_trip_time matches Some(d) && d.spec_nanos() == elapsed(
                                now,
                                sent_at_of(self.spec_pending(), read_be64(bytes@, 50))->0,
                            )
                        } else {
                            o.round_trip_time is None
                        }
                    }
                },
            },
    {
        let message = match PresenceMessage::decode(bytes) {
            Ok(m) => m,
            Err(_) => return DatagramAction::Ignore,
        };
        proof {
            assert(message.presence_id.0@ == bytes@.subrange(12, 28));
            if bytes@.subrange(12, 28) == local.presence_id.0@ {
                PresenceId::lemma_eq_by_bytes(message.presence_id, local.presence_id);
            }
        }
        if message.presence_id.same_as(&local.presence_id) {
            return DatagramAction::Ignore;
        }
        if message.kind == MessageKind::Goodbye {
            return DatagramAction::Withdraw(message.presence_id);
        }
        let reply = if message.kind == MessageKind::Query {
            let response = PresenceMessage::from_local(
                local,
                MessageKind::Response,
                self.sequence,
                message.nonce,
            ).encode();
            Some((response, response_target(source, message.reply_port)))
        } else {
            None
        };
        let round_trip_time = if message.kind == MessageKind::Response {
            match self.sent_at(message.nonce) {
                Some(t) => Some(now.saturating_sub(t)),
                None => None,
            }
        } else {
            None
        };
        let observation = match endpoint_from_source(source, message.quic_port) {
            Some(endpoint) => {
                let mut endpoints: Vec<Endpoint> = Vec::new();
                endpoints.push(endpoint);
                Some(
                    Observation {
                        provider: provider.duplicate(),
                        presence_id: message.presence_id,
                        protocol: message.protocol,
                        capabilities: message.capabilities,
                        sequence: message.sequence,
                        endpoints,
                        ttl,
                        round_trip_time,
                    },
                )
            },
            None => None,
        };
        DatagramAction::Handle { reply, observation }
    }

    /// Decides whether a response received on an egress socket answers one
    /// of our queries, and what it then tells about the responder.
    pub fn on_probe_response(
        &self,
        local: &LocalPresence,
        provider: &ProviderId,
        message: &PresenceMessage,
        source: SocketAddr,
        ttl: Duration,
        now: Duration,
    ) -> (r: Option<Observation>)
        requires
            self.wf(),
        ensures
            r is Some <==> {
                &&& message.kind == MessageKind::Response
                &&& message.presence_id != local.presence_id
                &&& sent_at_of(self.spec_pending(), message.nonce) is Some
                &&& !endpoint_rejected(source.spec_with_port(message.quic_port))
            },
            r matches Some(o) ==> {
                &&& o.provider == *provider
                &&& o.presence_id == message.presence_id
                &&& o.protocol == message.protocol
                &&& o.capabilities == message.capabilities
                &&& o.sequence == message.sequence
                &&& o.endpoints@.len() == 1
                &&& o.endpoints@[0].spec_address() == source.spec_with_port(message.quic_port)
                &&& o.ttl == ttl
                &&& o.round_trip_time matches Some(d) && d.spec_nanos() == elapsed(
                    now,
                    sent_at_of(self.spec_pending(), message.nonce)->0,
                )
            },
    {
        if message.kind != MessageKind::Response || message.presence_id.same_as(&local.presence_id) {
            return None;
        }
        let sent_at = match self.sent_at(message.nonce) {
            Some(t) => t,
            None => return None,
        };
        match endpoint_from_source(source, message.quic_port) {
            Some(endpoint) => {
                let mut endpoints: Vec<Endpoint> = Vec::new();
                endpoints.push(endpoint);
                Some(
                    Observation {
                        provider: provider.duplicate(),
                        presence_id: message.presence_id,
                        protocol: message.protocol,
                        capabilities: message.capabilities,
                        sequence: message.sequence,
                        endpoints,
                        ttl,
                        round_trip_time: Some(now.saturating_sub(sent_at)),
                    },
                )
            },
            None => None,
        }
    }
}

/// The big-endian `u16` at `offset`.
pub open spec fn read_be16_of(s: Seq<u8>, offset: int) -> u16 {
    crate::be_bytes::read_be16(s, offset)
}

} // verus!

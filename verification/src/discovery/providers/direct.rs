//! Direct probing of remembered discovery addresses: configuration limits
//! and the rule that accepts a probe response.

use vstd::prelude::*;

use crate::be_bytes::{read_be64, read_u64};
use crate::discovery::error::ProviderError;
use crate::discovery::model::{
    endpoint_rejected, Endpoint, Observation, PresenceId, ProviderId, ProviderKind,
};
use crate::discovery::wire::{MessageKind, PresenceMessage};
use crate::net::SocketAddr;
use crate::time::{Duration, NANOS_PER_SEC};

verus! {

#[derive(Clone, Copy, Debug, PartialEq, Eq)]
pub struct KnownEndpoint {
    /// Optional presence expected during the same app lifetime. Remembered
    /// addresses normally leave this unset because presence IDs rotate.
    pub expected_presence: Option<PresenceId>,
    pub discovery_address: SocketAddr,
}

#[derive(Clone, Debug)]
pub struct DirectProbeConfig {
    pub endpoints: Vec<KnownEndpoint>,
    pub probe_interval: Duration,
    pub response_timeout: Duration,
    pub observation_ttl: Duration,
    pub max_endpoints: usize,
}

impl Default for DirectProbeConfig {
    fn default() -> (r: Self)
        ensures
            r.endpoints@.len() == 0,
            r.probe_interval.spec_nanos() == 8 * NANOS_PER_SEC,
            r.response_timeout.spec_nanos() == 2 * NANOS_PER_SEC,
            r.observation_ttl.spec_nanos() == 20 * NANOS_PER_SEC,
            r.max_endpoints == 8,
    {
        DirectProbeConfig {
            endpoints: Vec::new(),
            probe_interval: Duration::from_secs(8),
            response_timeout: Duration::from_secs(2),
            observation_ttl: Duration::from_secs(20),
            max_endpoints: 8,
        }
    }
}

/// Non-zero timing and limits, no more targets than the limit, and no target
/// on port zero.
pub open spec fn direct_config_ok(config: DirectProbeConfig) -> bool {
    &&& config.probe_interval.spec_nanos() != 0
    &&& config.response_timeout.spec_nanos() != 0
    &&& config.observation_ttl.spec_nanos() != 0
    &&& config.max_endpoints != 0
    &&& config.endpoints@.len() <= config.max_endpoints
    &&& forall|i: int|
        0 <= i < config.endpoints@.len() ==> #[trigger] config.endpoints@[i].discovery_address.spec_port()
            != 0
}

pub fn validate_config(config: &DirectProbeConfig) -> (r: Result<(), ProviderError>)
    ensures
        r is Ok <==> direct_config_ok(*config),
        r matches Err(e) ==> e is InvalidConfig,
{
    if config.probe_interval.is_zero() || config.response_timeout.is_zero()
        || config.observation_ttl.is_zero() || config.max_endpoints == 0 {
        return Err(
            ProviderError::InvalidConfig(
                "direct probe timing and limits must be non-zero".to_owned(),
            ),
        );
    }
    if config.endpoints.len() > config.max_endpoints {
        return Err(
            ProviderError::InvalidConfig("direct probe has too many endpoints".to_owned()),
        );
    }
    let mut i: usize = 0;
    while i < config.endpoints.len()
        invariant
            i <= config.endpoints@.len(),
            forall|j: int|
                0 <= j < i ==> #[trigger] config.endpoints@[j].discovery_address.spec_port() != 0,
        decreases config.endpoints@.len() - i,
    {
        if config.endpoints[i].discovery_address.port() == 0 {
            return Err(
                ProviderError::InvalidConfig(
                    "remembered discovery endpoints must use a non-zero port".to_owned(),
                ),
            );
        }
        i = i + 1;
    }
    Ok(())
}

pub struct DirectProbeProvider {
    id: ProviderId,
    config: DirectProbeConfig,
}

impl DirectProbeProvider {
    pub closed spec fn spec_id(&self) -> ProviderId {
        self.id
    }

    pub closed spec fn spec_config(&self) -> DirectProbeConfig {
        self.config
    }

    pub fn new(config: DirectProbeConfig) -> (r: Result<Self, ProviderError>)
        ensures
            r is Ok <==> direct_config_ok(config),
            r matches Ok(p) ==> p.spec_config() == config && p.spec_id().spec_kind()
                == ProviderKind::Direct && p.spec_id().spec_name() == "direct"@,
            r matches Err(e) ==> e is InvalidConfig,
    {
        match validate_config(&config) {
            Ok(()) => Ok(
                DirectProbeProvider { id: ProviderId::builtin(ProviderKind::Direct, "direct"), config },
            ),
            Err(e) => Err(e),
        }
    }

    pub fn id(&self) -> (r: ProviderId)
        ensures
            r == self.spec_id(),
    {
        self.id.duplicate()
    }

    pub fn config(&self) -> (r: &DirectProbeConfig)
        ensures
            *r == self.spec_config(),
    {
        &self.config
    }
}

/// A probe nonce: the last eight bytes of a random version-4 UUID, read
/// big-endian. Its top two bits are the UUID variant bits `10`. `None`
/// when the operating system generator fails.
pub fn random_nonce() -> (r: Option<u64>)
    ensures
        r matches Some(n) ==> n / 0x4000_0000_0000_0000 == 2,
{
    let id = match PresenceId::random() {
        Some(id) => id,
        None => return None,
    };
    let bytes = id.as_bytes();
    let r = read_u64(bytes.as_slice(), 8);
    proof {
        let b8 = bytes@[8];
        let b9 = bytes@[9];
        let b10 = bytes@[10];
        let b11 = bytes@[11];
        let b12 = bytes@[12];
        let b13 = bytes@[13];
        let b14 = bytes@[14];
        let b15 = bytes@[15];
        assert(b8 / 64 == 2);
        let x = read_be64(bytes@, 8);
        assert(x == ((b8 as u64) << 56u64) | ((b9 as u64) << 48u64) | ((b10 as u64) << 40u64) | ((
        b11 as u64) << 32u64) | ((b12 as u64) << 24u64) | ((b13 as u64) << 16u64) | ((b14 as u64)
            << 8u64) | (b15 as u64));
        assert(x / 0x4000_0000_0000_0000 == b8 / 64) by (bit_vector)
            requires
                x == ((b8 as u64) << 56u64) | ((b9 as u64) << 48u64) | ((b10 as u64) << 40u64) | ((
                b11 as u64) << 32u64) | ((b12 as u64) << 24u64) | ((b13 as u64) << 16u64) | ((
                b14 as u64) << 8u64) | (b15 as u64),
        ;
    }
    Some(r)
}

/// The response a direct probe waits for: a response carrying our nonce,
/// from the expected presence if one is remembered, sent from the probed IP.
pub open spec fn spec_response_matches(
    message: PresenceMessage,
    nonce: u64,
    known: KnownEndpoint,
    source: SocketAddr,
) -> bool {
    &&& message.kind == MessageKind::Response
    &&& message.nonce == nonce
    &&& (known.expected_presence matches Some(expected) ==> message.presence_id == expected)
    &&& source.spec_ip() == known.discovery_address.spec_ip()
}

pub fn response_matches(
    message: &PresenceMessage,
    nonce: u64,
    known: &KnownEndpoint,
    source: &SocketAddr,
) -> (r: bool)
    ensures
        r == spec_response_matches(*message, nonce, *known, *source),
{
    if message.kind != MessageKind::Response || message.nonce != nonce {
        return false;
    }
    let presence_ok = match &known.expected_presence {
        None => true,
        Some(expected) => message.presence_id.same_as(expected),
    };
    presence_ok && source.ip().same_as(&known.discovery_address.ip())
}

/// The observation a matching probe response yields: the responder's QUIC
/// port on the address the response came from, if that is a valid endpoint.
pub fn probe_observation(
    provider: &ProviderId,
    message: &PresenceMessage,
    source: SocketAddr,
    ttl: Duration,
    round_trip_time: Duration,
) -> (r: Option<Observation>)
    ensures
        r is Some <==> !endpoint_rejected(source.spec_with_port(message.quic_port)),
        r matches Some(o) ==> {
            &&& o.provider == *provider
            &&& o.presence_id == message.presence_id
            &&& o.protocol == message.protocol
            &&& o.capabilities == message.capabilities
            &&& o.sequence == message.sequence
            &&& o.endpoints@.len() == 1
            &&& o.endpoints@[0].spec_address() == source.spec_with_port(message.quic_port)
            &&& o.ttl == ttl
            &&& o.round_trip_time == Some(round_trip_time)
        },
{
    let mut address = source;
    address.set_port(message.quic_port);
    match Endpoint::quic(address) {
        Ok(endpoint) => {
            let mut endpoints: Vec<Endpoint> = Vec::new();
            endpoints.push(endpoint);
            Some(
                Observation {
                    provider: provider.duplicate(),
                    presence_id: message.presence_id,
                    protocol: message.protocol,
                    capabilities: message.capabilities,
                    sequence: message.sequence,
                    endpoints,
                    ttl,
                    round_trip_time: Some(round_trip_time),
                },
            )
        },
        Err(_) => None,
    }
}

} // verus!

//! Pairing service policy and the events it reports.

use vstd::prelude::*;

use crate::time::{Duration, NANOS_PER_SEC};
use crate::crypto::identity::p256_secret_accepted;
use crate::transport::data_channel::{DataChannelCost, DataChannelPathClass, LocalNetworkScope};
use crate::transport::quic::{
    generate_native_tls_identity, x963_key_of, MAX_CERTIFICATE_LEN, NATIVE_PRIVATE_KEY_LEN,
};

verus! {

pub const EVENT_LIMIT: usize = 128;

pub const MAX_CANDIDATES: usize = 8;

pub const MAX_PAIRING_CONNECTIONS: usize = 4;

pub const MAX_PLATFORM_CHANNELS: usize = 8;

pub const MAX_AUTHENTICATED_SESSIONS: usize = 8;

pub const MAX_RECENT_PEER_ATTEMPTS: usize = 128;

pub const MIN_CONNECT_ATTEMPT_SECS: u64 = 1;

pub const MAX_CONNECT_ATTEMPT_SECS: u64 = 30;

pub const MIN_CONFIRMATION_SECS: u64 = 10;

pub const MAX_CONFIRMATION_SECS: u64 = 300;

pub const MAX_RETRY_COOLDOWN_SECS: u64 = 60;

#[derive(Clone, Copy, Debug, PartialEq, Eq, Structural)]
pub enum PairingError {
    InvalidPeerReference,
    NoEndpoints,
    Busy,
    RateLimited,
    RequestNotPending,
    AuthenticatedSessionNotFound,
    InvalidPeerHandle,
    PlatformChannelNotFound,
    PlatformChannelBackpressure,
    InvalidPlatformFrame,
    InternalState,
    Identity,
    Store,
    Endpoint,
    InvalidTransferPolicy,
    TransferState,
    InvalidPairingPolicy,
    IneligiblePath,
}

/// The TLS identity a platform's native QUIC stack uses for pairing.
pub struct PlatformTlsIdentity {
    pub certificate_der: Vec<u8>,
    pub private_key_x963: Vec<u8>,
}

/// A fresh self-signed TLS identity for a platform's native QUIC stack: a
/// non-empty certificate of at most `MAX_CERTIFICATE_LEN` bytes and the
/// X9.63 form of a valid P-256 key (`0x04`, the point, the secret). A failed generation is reported as an
/// endpoint error.
pub fn create_platform_tls_identity() -> (r: Result<PlatformTlsIdentity, PairingError>)
    ensures
        r matches Err(e) ==> e == PairingError::Endpoint,
        r matches Ok(id) ==> 0 < id.certificate_der@.len() <= MAX_CERTIFICATE_LEN
            && id.private_key_x963@.len() == NATIVE_PRIVATE_KEY_LEN && p256_secret_accepted(
            id.private_key_x963@.subrange(65, 97),
        ) && id.private_key_x963@ == x963_key_of(id.private_key_x963@.subrange(65, 97))
            && id.private_key_x963@[0] == 4,
{
    match generate_native_tls_identity() {
        Ok(identity) => Ok(
            PlatformTlsIdentity {
                certificate_der: identity.certificate_der,
                private_key_x963: identity.private_key_x963,
            },
        ),
        Err(_) => Err(PairingError::Endpoint),
    }
}

/// What a platform adapter attests of a UDP socket it hands to the pairing
/// service: the path's class and cost, the local network's scope, and
/// whether the socket is pinned to the interface it validated.
#[derive(Clone, Copy, Debug, PartialEq, Eq, Structural)]
pub struct BoundSocketProperties {
    pub path_class: DataChannelPathClass,
    pub cost: DataChannelCost,
    pub local_network_scope: Option<LocalNetworkScope>,
    pub interface_bound: bool,
}

/// A pinned socket may serve pairing only on a shared unmetered local
/// network, a user-approved local hotspot at any cost, or an unmetered
/// peer-to-peer link.
pub open spec fn eligible_bound_socket(p: BoundSocketProperties) -> bool {
    p.interface_bound && match (p.path_class, p.local_network_scope, p.cost) {
        (DataChannelPathClass::LocalNetwork, Some(LocalNetworkScope::Shared), DataChannelCost::Unmetered)
        | (DataChannelPathClass::LocalNetwork, Some(LocalNetworkScope::UserApprovedHotspot), _)
        | (DataChannelPathClass::PeerToPeer, None, DataChannelCost::Unmetered) => true,
        _ => false,
    }
}

pub fn bound_socket_eligible(p: &BoundSocketProperties) -> (r: bool)
    ensures
        r == eligible_bound_socket(*p),
{
    let eligible = match (p.path_class, p.local_network_scope, p.cost) {
        (DataChannelPathClass::LocalNetwork, Some(LocalNetworkScope::Shared), DataChannelCost::Unmetered)
        | (DataChannelPathClass::LocalNetwork, Some(LocalNetworkScope::UserApprovedHotspot), _)
        | (DataChannelPathClass::PeerToPeer, None, DataChannelCost::Unmetered) => true,
        _ => false,
    };
    p.interface_bound && eligible
}

/// The start-up check on a socket a platform adapter pinned: an ineligible
/// path is refused with `IneligiblePath`.
pub fn check_bound_socket(p: &BoundSocketProperties) -> (r: Result<(), PairingError>)
    ensures
        r is Ok <==> eligible_bound_socket(*p),
        r matches Err(e) ==> e == PairingError::IneligiblePath,
{
    if bound_socket_eligible(p) {
        Ok(())
    } else {
        Err(PairingError::IneligiblePath)
    }
}

/// Timing of pairing attempts.
#[derive(Clone, Copy, Debug, PartialEq, Eq)]
pub struct PairingPolicy {
    pub connect_attempt_timeout: Duration,
    pub confirmation_timeout: Duration,
    pub retry_cooldown: Duration,
}

impl Default for PairingPolicy {
    fn default() -> (r: Self)
        ensures
            r.connect_attempt_timeout.spec_nanos() == 8 * NANOS_PER_SEC,
            r.confirmation_timeout.spec_nanos() == 60 * NANOS_PER_SEC,
            r.retry_cooldown.spec_nanos() == 2 * NANOS_PER_SEC,
    {
        PairingPolicy {
            connect_attempt_timeout: Duration::from_secs(8),
            confirmation_timeout: Duration::from_secs(60),
            retry_cooldown: Duration::from_secs(2),
        }
    }
}

impl PairingPolicy {
    /// A connect timeout of one to thirty seconds, a confirmation window of
    /// ten seconds to five minutes, and a non-zero retry cooldown of at
    /// most one minute.
    pub open spec fn spec_valid(self) -> bool {
        &&& MIN_CONNECT_ATTEMPT_SECS * NANOS_PER_SEC <= self.connect_attempt_timeout.spec_nanos()
        &&& self.connect_attempt_timeout.spec_nanos() <= MAX_CONNECT_ATTEMPT_SECS * NANOS_PER_SEC
        &&& MIN_CONFIRMATION_SECS * NANOS_PER_SEC <= self.confirmation_timeout.spec_nanos()
        &&& self.confirmation_timeout.spec_nanos() <= MAX_CONFIRMATION_SECS * NANOS_PER_SEC
        &&& self.retry_cooldown.spec_nanos() != 0
        &&& self.retry_cooldown.spec_nanos() <= MAX_RETRY_COOLDOWN_SECS * NANOS_PER_SEC
    }

    pub fn validate(self) -> (r: Result<Self, PairingError>)
        ensures
            r == (if self.spec_valid() {
                Ok::<Self, PairingError>(self)
            } else {
                Err(PairingError::InvalidPairingPolicy)
            }),
    {
        let connect = self.connect_attempt_timeout.as_nanos();
        let confirm = self.confirmation_timeout.as_nanos();
        let cooldown = self.retry_cooldown.as_nanos();
        if connect < (MIN_CONNECT_ATTEMPT_SECS as u128) * NANOS_PER_SEC || connect > (
        MAX_CONNECT_ATTEMPT_SECS as u128) * NANOS_PER_SEC || confirm < (MIN_CONFIRMATION_SECS as u128)
            * NANOS_PER_SEC || confirm > (MAX_CONFIRMATION_SECS as u128) * NANOS_PER_SEC || cooldown
            == 0 || cooldown > (MAX_RETRY_COOLDOWN_SECS as u128) * NANOS_PER_SEC {
            return Err(PairingError::InvalidPairingPolicy);
        }
        Ok(self)
    }
}

#[derive(Clone, Copy, Debug, PartialEq, Eq, Structural)]
pub enum PairingEventKind {
    Connecting,
    CodeAvailable,
    ConfirmationRequired,
    Trusted,
    Rejected,
    IdentityChanged,
    TimedOut,
    Cancelled,
    Failed,
    Disconnected,
    Revoked,
}

#[derive(Clone, Copy, Debug, PartialEq, Eq, Structural)]
pub enum PlatformPairingRole {
    Initiator,
    Responder,
}

#[derive(Clone, Copy, Debug, PartialEq, Eq, Structural)]
pub enum PlatformPairingChannelState {
    Pending,
    Authenticated,
    Failed,
}

#[derive(Clone, Debug, PartialEq, Eq)]
pub struct PairingEvent {
    pub event_id: u64,
    pub request_id: Option<u64>,
    pub kind: PairingEventKind,
    /// Caller-provided correlation value, normally a discovery presence ID.
    pub peer_reference: Option<String>,
    pub peer_fingerprint: Option<String>,
    pub short_code: Option<String>,
    pub already_trusted: bool,
    /// Present only when the authenticated LAN connection was retained.
    pub authenticated_session_id: Option<u64>,
    /// Stable category only; never addresses, keys, or filesystem paths.
    pub detail: Option<String>,
}

#[derive(Clone, Debug, PartialEq, Eq)]
pub struct AuthenticatedSessionInfo {
    pub session_id: u64,
    pub peer_fingerprint: String,
    pub peer_reference: Option<String>,
}

#[derive(Clone, Debug, PartialEq, Eq)]
pub struct RememberedPeerInfo {
    /// Opaque command handle. Applications must not display or log it.
    pub handle: String,
    pub fingerprint: String,
    pub active_session_id: Option<u64>,
}

} // verus!

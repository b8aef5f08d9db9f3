//! The shared discovery model: presence identifiers, version ranges,
//! capability bits, provider identities, endpoints and session limits.

use vstd::prelude::*;
use vstd::string::StringSliceAdditionalSpecFns;

use crate::discovery::error::DiscoveryError;
use crate::net::{
    spec_is_multicast, spec_is_unicast_link_local_v6, spec_is_unspecified, IpAddr, SocketAddr,
};
use crate::text::{all_ascii, ascii_chars, ascii_to_string};
use crate::time::{Duration, NANOS_PER_MILLI, NANOS_PER_SEC};
use crate::crypto::random::random_array;

verus! {

/// A random identifier shared by all providers for one discoverable presence.
/// It is deliberately not a stable or authenticated device identity.
#[derive(Clone, Copy, Debug, PartialEq, Eq, Hash, PartialOrd, Ord)]
pub struct PresenceId(pub [u8; 16]);

/// The lower-case hexadecimal digit of a nibble.
pub open spec fn hex_digit(n: u8) -> u8 {
    if n < 10 {
        (n + 48) as u8
    } else {
        (n + 87) as u8
    }
}

/// Two lower-case hexadecimal digits for each byte.
pub open spec fn hex_bytes(bytes: Seq<u8>) -> Seq<u8>
    decreases bytes.len(),
{
    if bytes.len() == 0 {
        Seq::empty()
    } else {
        seq![hex_digit(bytes[0] / 16), hex_digit(bytes[0] % 16)] + hex_bytes(bytes.drop_first())
    }
}

pub proof fn lemma_hex_bytes_push(bytes: Seq<u8>, b: u8)
    ensures
        hex_bytes(bytes.push(b)) == hex_bytes(bytes) + seq![hex_digit(b / 16), hex_digit(b % 16)],
    decreases bytes.len(),
{
    if bytes.len() == 0 {
        assert(bytes.push(b).drop_first() =~= Seq::<u8>::empty());
        assert(hex_bytes(Seq::<u8>::empty()) =~= Seq::<u8>::empty());
    } else {
        assert(bytes.push(b).drop_first() =~= bytes.drop_first().push(b));
        lemma_hex_bytes_push(bytes.drop_first(), b);
    }
}

pub proof fn lemma_hex_bytes_ascii(bytes: Seq<u8>)
    ensures
        all_ascii(hex_bytes(bytes)),
        hex_bytes(bytes).len() == 2 * bytes.len(),
    decreases bytes.len(),
{
    if bytes.len() > 0 {
        lemma_hex_bytes_ascii(bytes.drop_first());
    }
}

pub(crate) fn hex_digit_exec(n: u8) -> (r: u8)
    requires
        n < 16,
    ensures
        r == hex_digit(n),
{
    if n < 10 {
        n + 48
    } else {
        n + 87
    }
}

/// Calls `uuid::Builder::from_random_bytes` and returns the UUID's sixteen
/// bytes. The crate keeps every byte but two: it sets the version nibble 4
/// in the high nibble of byte 6 and the RFC 4122 variant bits `10` at the
/// top of byte 8.
#[verifier::external_body]
fn uuid_from_random_bytes(bytes: [u8; 16]) -> (r: [u8; 16])
    ensures
        forall|i: int| 0 <= i < 16 && i != 6 && i != 8 ==> r@[i] == bytes@[i],
        r@[6] == bytes@[6] % 16 + 64,
        r@[8] == bytes@[8] % 64 + 128,
{
    uuid::Builder::from_random_bytes(bytes).into_uuid().into_bytes()
}

/// A presence id as a hyphenated UUID: lower-case hexadecimal in groups of
/// 8, 4, 4, 4 and 12 digits.
pub open spec fn uuid_text(b: Seq<u8>) -> Seq<u8> {
    hex_bytes(b.subrange(0, 4)) + seq![45u8] + hex_bytes(b.subrange(4, 6)) + seq![45u8] + hex_bytes(
        b.subrange(6, 8),
    ) + seq![45u8] + hex_bytes(b.subrange(8, 10)) + seq![45u8] + hex_bytes(b.subrange(10, 16))
}

/// What `uuid::Uuid::parse_str` makes of a text: the sixteen bytes of the
/// UUID it spells, or nothing.
pub uninterp spec fn uuid_parse(text: Seq<char>) -> Option<Seq<u8>>;

/// Calls `uuid::Uuid::parse_str`. Its result is trusted to be the named
/// parse of the text; the crate reads a hyphenated UUID two hexadecimal
/// digits per byte, so the lower-case hyphenated text of sixteen bytes
/// reads back as those bytes.
#[verifier::external_body]
fn parse_uuid(text: &str) -> (r: Option<[u8; 16]>)
    ensures
        r is Some <==> uuid_parse(text@) is Some,
        r matches Some(x) ==> uuid_parse(text@) == Some(x@),
        forall|b: Seq<u8>|
            b.len() == 16 && text@ == ascii_chars(#[trigger] uuid_text(b)) ==> r is Some && r->0@
                == b,
{
    uuid::Uuid::parse_str(text).ok().map(|uuid| *uuid.as_bytes())
}

/// A text that does not spell a UUID.
#[derive(Clone, Copy, Debug, PartialEq, Eq, Structural)]
pub struct InvalidPresenceId;

impl PresenceId {
    /// Identifiers with the same bytes are the same identifier.
    pub proof fn lemma_eq_by_bytes(a: Self, b: Self)
        requires
            a.0@ == b.0@,
        ensures
            a == b,
    {
        assert forall|i: int| 0 <= i < 16 implies a.0[i] == b.0[i] by {
            assert(a.0@[i] == b.0@[i]);
        }
        assert(a.0 =~= b.0);
    }

    /// Reads a presence id from its UUID text, as `uuid` parses one; the
    /// hyphenated text of an id reads back as that id.
    pub fn parse(text: &str) -> (r: Result<Self, InvalidPresenceId>)
        ensures
            match uuid_parse(text@) {
                Some(b) => r matches Ok(id) && id.0@ == b,
                None => r == Err::<Self, InvalidPresenceId>(InvalidPresenceId),
            },
            forall|b: Seq<u8>|
                b.len() == 16 && text@ == ascii_chars(#[trigger] uuid_text(b)) ==> (r matches Ok(id)
                    && id.0@ == b),
    {
        match parse_uuid(text) {
            Some(bytes) => Ok(PresenceId(bytes)),
            None => Err(InvalidPresenceId),
        }
    }

    /// A fresh random version-4 UUID: sixteen bytes from the operating
    /// system generator with the version and variant bits set; `None` when
    /// the generator fails.
    pub fn random() -> (r: Option<Self>)
        ensures
            r matches Some(id) ==> id.0@[6] / 16 == 4 && id.0@[8] / 64 == 2,
    {
        match random_array::<16>() {
            Some(bytes) => Some(PresenceId(uuid_from_random_bytes(bytes))),
            None => None,
        }
    }

    /// Whether two identifiers hold the same bytes.
    pub fn same_as(&self, other: &Self) -> (r: bool)
        ensures
            r == (*self == *other),
    {
        let eq = crate::be_bytes::bytes_equal(self.0.as_slice(), other.0.as_slice());
        proof {
            if eq {
                assert forall|i: int| 0 <= i < 16 implies self.0[i] == other.0[i] by {
                    assert(self.0@[i] == other.0@[i]);
                }
                assert(self.0 =~= other.0);
            }
        }
        eq
    }

    pub fn from_bytes(bytes: [u8; 16]) -> (r: Self)
        ensures
            r.0 == bytes,
    {
        PresenceId(bytes)
    }

    pub fn as_bytes(&self) -> (r: &[u8; 16])
        ensures
            *r == self.0,
    {
        &self.0
    }

    /// The first six bytes in lower-case hexadecimal, for ephemeral mDNS
    /// instance names.
    pub fn short_hex(&self) -> (r: String)
        ensures
            r@ == ascii_chars(hex_bytes(self.0@.subrange(0, 6))),
    {
        let mut out: Vec<u8> = Vec::new();
        let mut i: usize = 0;
        while i < 6
            invariant
                i <= 6,
                out@ == hex_bytes(self.0@.subrange(0, i as int)),
            decreases 6 - i,
        {
            let b = self.0[i];
            out.push(hex_digit_exec(b / 16));
            out.push(hex_digit_exec(b % 16));
            proof {
                assert(self.0@.subrange(0, i + 1) =~= self.0@.subrange(0, i as int).push(b));
                lemma_hex_bytes_push(self.0@.subrange(0, i as int), b);
                assert(out@ =~= hex_bytes(self.0@.subrange(0, i + 1)));
            }
            i = i + 1;
        }
        proof {
            lemma_hex_bytes_ascii(self.0@.subrange(0, 6));
        }
        ascii_to_string(out.as_slice())
    }
}

/// Inclusive range of Halo application protocol versions.
#[derive(Clone, Copy, Debug, PartialEq, Eq)]
pub struct ProtocolRange {
    min: u16,
    max: u16,
}

impl ProtocolRange {
    pub closed spec fn lo(self) -> u16 {
        self.min
    }

    pub closed spec fn hi(self) -> u16 {
        self.max
    }

    /// Every range a caller can hold: both ends non-zero and ordered.
    pub open spec fn wf(self) -> bool {
        0 < self.lo() && self.lo() <= self.hi()
    }

    /// Ranges with the same ends are the same range.
    pub proof fn lemma_eq_by_ends(a: Self, b: Self)
        requires
            a.lo() == b.lo(),
            a.hi() == b.hi(),
        ensures
            a == b,
    {
    }

    pub open spec fn range_ok(min: u16, max: u16) -> bool {
        min != 0 && max != 0 && min <= max
    }

    /// Creates a non-empty inclusive version range.
    pub fn new(min: u16, max: u16) -> (r: Result<Self, DiscoveryError>)
        ensures
            r is Ok <==> Self::range_ok(min, max),
            r matches Ok(range) ==> range.lo() == min && range.hi() == max && range.wf(),
            r matches Err(e) ==> e is InvalidConfig,
    {
        if min == 0 || max == 0 || min > max {
            return Err(
                DiscoveryError::InvalidConfig("protocol range must satisfy 0 < min <= max".to_owned()),
            );
        }
        Ok(Self { min, max })
    }

    pub fn min(self) -> (r: u16)
        ensures
            r == self.lo(),
    {
        self.min
    }

    pub fn max(self) -> (r: u16)
        ensures
            r == self.hi(),
    {
        self.max
    }

    pub open spec fn spec_contains(self, v: int) -> bool {
        self.lo() <= v <= self.hi()
    }

    pub open spec fn spec_overlaps(self, other: Self) -> bool {
        self.lo() <= other.hi() && other.lo() <= self.hi()
    }

    /// Whether two ranges share at least one version.
    pub fn overlaps(self, other: Self) -> (r: bool)
        ensures
            r == self.spec_overlaps(other),
    {
        self.min <= other.max && other.min <= self.max
    }

    /// Returns the shared range, if any.
    pub fn intersection(self, other: Self) -> (r: Option<Self>)
        ensures
            match r {
                Some(shared) => {
                    &&& shared.lo() == (if self.lo() >= other.lo() {
                        self.lo()
                    } else {
                        other.lo()
                    })
                    &&& shared.hi() == (if self.hi() <= other.hi() {
                        self.hi()
                    } else {
                        other.hi()
                    })
                    &&& shared.lo() <= shared.hi()
                },
                None => !self.spec_overlaps(other) || !(self.lo() <= self.hi() && other.lo()
                    <= other.hi()),
            },
            (self.wf() && other.wf()) ==> (r is Some <==> self.spec_overlaps(other)),
            (self.wf() && other.wf() && r is Some) ==> r->0.wf(),
    {
        let min = if self.min >= other.min {
            self.min
        } else {
            other.min
        };
        let max = if self.max <= other.max {
            self.max
        } else {
            other.max
        };
        if min <= max {
            Some(Self { min, max })
        } else {
            None
        }
    }
}

/// A version supported by both ranges exists exactly when they overlap.
pub proof fn lemma_overlap_iff_shared_version(a: ProtocolRange, b: ProtocolRange)
    requires
        a.wf(),
        b.wf(),
    ensures
        a.spec_overlaps(b) <==> exists|v: int| #[trigger] a.spec_contains(v) && b.spec_contains(v),
{
    if a.spec_overlaps(b) {
        let v: int = if a.lo() >= b.lo() {
            a.lo() as int
        } else {
            b.lo() as int
        };
        assert(a.spec_contains(v) && b.spec_contains(v));
    }
}

/// Coarse platform type advertised as an untrusted discovery hint.
#[derive(Clone, Copy, Debug, PartialEq, Eq, Structural, Hash)]
pub enum DeviceType {
    Unknown,
    Android,
    Ios,
    Macos,
    Windows,
    Linux,
}

impl DeviceType {
    /// The code carried in the capability nibble.
    pub open spec fn spec_code(self) -> u8 {
        match self {
            DeviceType::Unknown => 0,
            DeviceType::Android => 1,
            DeviceType::Ios => 2,
            DeviceType::Macos => 3,
            DeviceType::Windows => 4,
            DeviceType::Linux => 5,
        }
    }

    pub open spec fn spec_from_code(code: u8) -> DeviceType {
        if code == 1 {
            DeviceType::Android
        } else if code == 2 {
            DeviceType::Ios
        } else if code == 3 {
            DeviceType::Macos
        } else if code == 4 {
            DeviceType::Windows
        } else if code == 5 {
            DeviceType::Linux
        } else {
            DeviceType::Unknown
        }
    }

    pub fn code(self) -> (r: u8)
        ensures
            r == self.spec_code(),
            r <= 5,
    {
        match self {
            DeviceType::Unknown => 0,
            DeviceType::Android => 1,
            DeviceType::Ios => 2,
            DeviceType::Macos => 3,
            DeviceType::Windows => 4,
            DeviceType::Linux => 5,
        }
    }

    pub fn from_code(code: u8) -> (r: Self)
        ensures
            r == Self::spec_from_code(code),
    {
        if code == 1 {
            DeviceType::Android
        } else if code == 2 {
            DeviceType::Ios
        } else if code == 3 {
            DeviceType::Macos
        } else if code == 4 {
            DeviceType::Windows
        } else if code == 5 {
            DeviceType::Linux
        } else {
            DeviceType::Unknown
        }
    }
}

impl Default for DeviceType {
    fn default() -> (r: Self)
        ensures
            r == DeviceType::Unknown,
    {
        DeviceType::Unknown
    }
}

/// Every device type survives the trip through its code.
pub proof fn lemma_device_type_code_round_trip(t: DeviceType)
    ensures
        DeviceType::spec_from_code(t.spec_code()) == t,
{
}

/// Mask of the 60 feature bits below the device-type nibble.
pub const FEATURE_MASK: u64 = 0x0fff_ffff_ffff_ffff;

pub const DEVICE_TYPE_SHIFT: u64 = 60;

/// Capability bits advertised as untrusted discovery hints. The upper nibble
/// carries a `DeviceType`; peers that leave it unset read as `Unknown`.
#[derive(Clone, Copy, Debug, PartialEq, Eq, Hash, Default)]
pub struct Capabilities(pub u64);

impl Capabilities {
    pub open spec fn spec_with_device_type(self, t: DeviceType) -> Self {
        Capabilities((self.0 & FEATURE_MASK) | ((t.spec_code() as u64) << DEVICE_TYPE_SHIFT))
    }

    pub open spec fn spec_device_type(self) -> DeviceType {
        DeviceType::spec_from_code((self.0 >> DEVICE_TYPE_SHIFT) as u8)
    }

    pub fn from_bits(bits: u64) -> (r: Self)
        ensures
            r.0 == bits,
    {
        Capabilities(bits)
    }

    pub fn bits(self) -> (r: u64)
        ensures
            r == self.0,
    {
        self.0
    }

    /// A copy carrying one coarse device type in the reserved nibble.
    pub fn with_device_type(self, device_type: DeviceType) -> (r: Self)
        ensures
            r == self.spec_with_device_type(device_type),
    {
        Capabilities((self.0 & FEATURE_MASK) | ((device_type.code() as u64) << DEVICE_TYPE_SHIFT))
    }

    /// Decodes the untrusted coarse device type metadata.
    pub fn device_type(self) -> (r: DeviceType)
        ensures
            r == self.spec_device_type(),
    {
        let code = (self.0 >> DEVICE_TYPE_SHIFT) as u8;
        DeviceType::from_code(code)
    }
}

/// Setting a device type and reading it back gives that type, and the
/// feature bits below the nibble are left as they were.
pub proof fn lemma_device_type_round_trip(c: Capabilities, t: DeviceType)
    ensures
        c.spec_with_device_type(t).spec_device_type() == t,
        c.spec_with_device_type(t).0 & FEATURE_MASK == c.0 & FEATURE_MASK,
{
    let code = t.spec_code();
    let b = c.0;
    assert(code <= 5);
    assert((((b & 0x0fff_ffff_ffff_ffffu64) | ((code as u64) << 60u64)) >> 60u64) as u8 == code)
        by (bit_vector)
        requires
            code <= 5,
    ;
    assert(((b & 0x0fff_ffff_ffff_ffffu64) | ((code as u64) << 60u64)) & 0x0fff_ffff_ffff_ffffu64
        == b & 0x0fff_ffff_ffff_ffffu64) by (bit_vector)
        requires
            code <= 5,
    ;
}

/// Broad provider class used by the endpoint ranker.
#[derive(Clone, Copy, Debug, PartialEq, Eq, Structural, Hash, PartialOrd, Ord)]
pub enum ProviderKind {
    Ble,
    Mdns,
    PresenceV4,
    PresenceV6,
    Direct,
    WifiAware,
    WifiDirect,
    Custom,
}

/// A byte allowed in a provider name: ASCII letter, digit, `-` or `_`.
pub open spec fn provider_name_byte(b: u8) -> bool {
    (48 <= b && b <= 57) || (65 <= b && b <= 90) || (97 <= b && b <= 122) || b == 45 || b == 95
}

/// One to 48 bytes, each a letter, digit, `-` or `_`.
pub open spec fn valid_provider_name(bytes: Seq<u8>) -> bool {
    0 < bytes.len() <= 48 && forall|i: int| 0 <= i < bytes.len() ==> provider_name_byte(bytes[i])
}

fn name_bytes_ok(bytes: &[u8]) -> (r: bool)
    ensures
        r == valid_provider_name(bytes@),
{
    if bytes.len() == 0 || bytes.len() > 48 {
        return false;
    }
    let mut i: usize = 0;
    while i < bytes.len()
        invariant
            i <= bytes@.len(),
            forall|j: int| 0 <= j < i ==> provider_name_byte(bytes@[j]),
        decreases bytes@.len() - i,
    {
        let b = bytes[i];
        let ok = (b >= 48 && b <= 57) || (b >= 65 && b <= 90) || (b >= 97 && b <= 122) || b == 45
            || b == 95;
        if !ok {
            return false;
        }
        i = i + 1;
    }
    true
}

/// Stable identifier for one provider instance in a discovery session.
#[derive(Clone, Debug, PartialEq, Eq, Hash, PartialOrd, Ord)]
pub struct ProviderId {
    kind: ProviderKind,
    name: String,
}

impl ProviderId {
    pub closed spec fn spec_kind(&self) -> ProviderKind {
        self.kind
    }

    pub closed spec fn spec_name(&self) -> Seq<char> {
        self.name@
    }

    /// Creates an identifier with a short diagnostic-only name.
    pub fn new(kind: ProviderKind, name: &str) -> (r: Result<Self, DiscoveryError>)
        ensures
            r is Ok <==> valid_provider_name(name.spec_bytes()),
            r matches Ok(id) ==> id.spec_kind() == kind && id.spec_name() == name@,
            r matches Err(e) ==> e is InvalidConfig,
    {
        if !name_bytes_ok(name.as_bytes()) {
            return Err(
                DiscoveryError::InvalidConfig(
                    "provider name must be 1-48 ASCII letters, digits, '-' or '_'".to_owned(),
                ),
            );
        }
        Ok(ProviderId { kind, name: name.to_owned() })
    }

    /// Identifier of a provider built into this library, whose name is a
    /// constant chosen by the library.
    pub fn builtin(kind: ProviderKind, name: &str) -> (r: Self)
        ensures
            r.spec_kind() == kind,
            r.spec_name() == name@,
    {
        ProviderId { kind, name: name.to_owned() }
    }

    pub fn kind(&self) -> (r: &ProviderKind)
        ensures
            *r == self.spec_kind(),
    {
        &self.kind
    }

    pub fn name(&self) -> (r: &str)
        ensures
            r@ == self.spec_name(),
    {
        self.name.as_str()
    }

    /// A copy of this identifier.
    pub fn duplicate(&self) -> (r: Self)
        ensures
            r == *self,
    {
        ProviderId { kind: self.kind, name: self.name.clone() }
    }

    /// Whether two identifiers name the same provider.
    pub fn same_as(&self, other: &Self) -> (r: bool)
        ensures
            r == (self.spec_kind() == other.spec_kind() && self.spec_name() == other.spec_name()),
    {
        self.kind == other.kind && self.name == other.name
    }
}

/// The reasons `Endpoint::quic` refuses an address.
pub open spec fn endpoint_rejected(address: SocketAddr) -> bool {
    address.spec_port() == 0 || spec_is_unspecified(address.spec_ip()) || spec_is_multicast(
        address.spec_ip(),
    ) || match address {
        SocketAddr::V6 { ip, scope_id, .. } => spec_is_unicast_link_local_v6(ip@) && scope_id
            == 0,
        SocketAddr::V4 { .. } => false,
    }
}

/// A candidate transport endpoint. It remains untrusted until the secure
/// handshake completes.
#[derive(Clone, Copy, Debug, PartialEq, Eq, Hash)]
pub struct Endpoint {
    address: SocketAddr,
}

impl Endpoint {
    pub closed spec fn spec_address(self) -> SocketAddr {
        self.address
    }

    /// An endpoint is its address.
    pub proof fn lemma_eq_by_address(a: Self, b: Self)
        requires
            a.spec_address() == b.spec_address(),
        ensures
            a == b,
    {
    }

    /// Validates and creates a QUIC endpoint.
    pub fn quic(address: SocketAddr) -> (r: Result<Self, DiscoveryError>)
        ensures
            r is Ok <==> !endpoint_rejected(address),
            r matches Ok(e) ==> e.spec_address() == address,
            r matches Err(e) ==> e is InvalidConfig,
    {
        let ip = address.ip();
        if address.port() == 0 || ip.is_unspecified() || ip.is_multicast() {
            return Err(DiscoveryError::InvalidConfig("invalid QUIC endpoint".to_owned()));
        }
        if let SocketAddr::V6 { ip, scope_id, .. } = address {
            if ip[0] == 0xfe && ip[1] >= 0x80 && ip[1] <= 0xbf && scope_id == 0 {
                return Err(
                    DiscoveryError::InvalidConfig(
                        "IPv6 link-local endpoint requires an interface scope".to_owned(),
                    ),
                );
            }
        }
        Ok(Self { address })
    }

    pub fn address(self) -> (r: SocketAddr)
        ensures
            r == self.spec_address(),
    {
        self.address
    }

    pub fn ip(self) -> (r: IpAddr)
        ensures
            r == self.spec_address().spec_ip(),
    {
        self.address.ip()
    }
}

/// Local, ephemeral data advertised by providers.
#[derive(Clone, Copy, Debug, PartialEq, Eq)]
pub struct LocalPresence {
    pub presence_id: PresenceId,
    pub protocol: ProtocolRange,
    pub capabilities: Capabilities,
    pub quic_port: u16,
}

impl LocalPresence {
    pub fn new(
        presence_id: PresenceId,
        protocol: ProtocolRange,
        capabilities: Capabilities,
        quic_port: u16,
    ) -> (r: Result<Self, DiscoveryError>)
        ensures
            r is Ok <==> quic_port != 0,
            r matches Ok(l) ==> l == (LocalPresence {
                presence_id,
                protocol,
                capabilities,
                quic_port,
            }),
            r matches Err(e) ==> e is InvalidConfig,
    {
        if quic_port == 0 {
            return Err(DiscoveryError::InvalidConfig("QUIC listener port must be non-zero".to_owned()));
        }
        Ok(Self { presence_id, protocol, capabilities, quic_port })
    }
}

/// One untrusted observation submitted by a discovery provider.
#[derive(Clone, Debug)]
pub struct Observation {
    pub provider: ProviderId,
    pub presence_id: PresenceId,
    pub protocol: ProtocolRange,
    pub capabilities: Capabilities,
    pub sequence: u64,
    pub endpoints: Vec<Endpoint>,
    pub ttl: Duration,
    pub round_trip_time: Option<Duration>,
}

/// Runtime health of an individual provider.
#[derive(Clone, Debug, PartialEq, Eq)]
pub enum ProviderState {
    Starting,
    Ready,
    Degraded(String),
    PermissionRequired(String),
    PermissionDenied(String),
    HardwareOff,
    Unsupported,
    TemporarilyUnavailable(String),
    Failed { recoverable: bool, reason: String },
    Stopped,
}

/// One ranked endpoint candidate retained for fallback or connection racing.
#[derive(Clone, Debug)]
pub struct EndpointCandidate {
    pub endpoint: Endpoint,
    pub score: i32,
    pub sources: Vec<ProviderId>,
    pub round_trip_time: Option<Duration>,
    pub successful_connections: u32,
    pub consecutive_failures: u32,
}

/// Coherent peer view emitted after provider observations are merged.
#[derive(Clone, Debug)]
pub struct PeerSnapshot {
    pub presence_id: PresenceId,
    pub protocol: ProtocolRange,
    pub compatible: bool,
    pub capabilities: Capabilities,
    pub sources: Vec<ProviderId>,
    pub candidates: Vec<EndpointCandidate>,
    pub best_endpoint: Option<Endpoint>,
    pub quarantined: bool,
}

/// Events are bounded. A lagging receiver must fetch a fresh snapshot.
#[derive(Clone, Debug)]
pub enum DiscoveryEvent {
    PeerAppeared(PeerSnapshot),
    PeerChanged(PeerSnapshot),
    PeerExpired(PresenceId),
    PeerQuarantined(PresenceId),
    ProviderChanged { provider: ProviderId, state: ProviderState },
}

/// Structured reason for a failed active connection attempt.
#[derive(Clone, Copy, Debug, PartialEq, Eq, Structural)]
pub enum ConnectionFailure {
    NoRoute,
    Timeout,
    Refused,
    ProtocolMismatch,
    AuthenticationFailed,
    Cancelled,
    Other,
}

/// Result supplied by the secure connection layer to improve ranking.
#[derive(Clone, Copy, Debug, PartialEq, Eq)]
pub enum ConnectionOutcome {
    Success { handshake_time: Duration },
    Failure(ConnectionFailure),
}

/// Resource, timing, and queue limits for one discovery session.
#[derive(Clone, Copy, Debug, PartialEq, Eq)]
pub struct DiscoveryConfig {
    pub input_capacity: usize,
    pub event_capacity: usize,
    pub max_peers: usize,
    pub max_endpoints_per_peer: usize,
    pub min_observation_ttl: Duration,
    pub max_observation_ttl: Duration,
    pub expiry_interval: Duration,
}

impl Default for DiscoveryConfig {
    fn default() -> (r: Self)
        ensures
            r.input_capacity == 256,
            r.event_capacity == 256,
            r.max_peers == 256,
            r.max_endpoints_per_peer == 24,
            r.min_observation_ttl.spec_nanos() == 2 * NANOS_PER_SEC,
            r.max_observation_ttl.spec_nanos() == 120 * NANOS_PER_SEC,
            r.expiry_interval.spec_nanos() == 500 * NANOS_PER_MILLI,
    {
        DiscoveryConfig {
            input_capacity: 256,
            event_capacity: 256,
            max_peers: 256,
            max_endpoints_per_peer: 24,
            min_observation_ttl: Duration::from_secs(2),
            max_observation_ttl: Duration::from_secs(120),
            expiry_interval: Duration::from_millis(500),
        }
    }
}

impl DiscoveryConfig {
    pub open spec fn limits_ok(self) -> bool {
        self.input_capacity != 0 && self.event_capacity != 0 && self.max_peers != 0
            && self.max_endpoints_per_peer != 0
    }

    pub open spec fn timing_ok(self) -> bool {
        self.min_observation_ttl.spec_nanos() != 0 && self.min_observation_ttl.spec_nanos()
            <= self.max_observation_ttl.spec_nanos() && self.expiry_interval.spec_nanos() != 0
    }

    /// Accepts non-zero limits and ordered, non-zero timing.
    pub fn validate(&self) -> (r: Result<(), DiscoveryError>)
        ensures
            r is Ok <==> self.limits_ok() && self.timing_ok(),
            r matches Err(e) ==> e is InvalidConfig,
    {
        if self.input_capacity == 0 || self.event_capacity == 0 || self.max_peers == 0
            || self.max_endpoints_per_peer == 0 {
            return Err(
                DiscoveryError::InvalidConfig("queue and collection limits must be non-zero".to_owned()),
            );
        }
        if self.min_observation_ttl.is_zero() || self.min_observation_ttl.as_nanos()
            > self.max_observation_ttl.as_nanos() || self.expiry_interval.is_zero() {
            return Err(DiscoveryError::InvalidConfig("invalid discovery timing limits".to_owned()));
        }
        Ok(())
    }
}

} // verus!

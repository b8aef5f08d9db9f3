//! The discovery facade's configuration and plain-value views.

use vstd::prelude::*;
use vstd::string::{StrSliceExecFns, StringExecFns, StringSliceAdditionalSpecFns};

use crate::discovery::model::{
    Capabilities, DeviceType as PresenceDeviceType, LocalPresence, PresenceId, ProtocolRange,
    ProviderId, ProviderKind, ProviderState,
};
use crate::discovery::model::{hex_bytes, lemma_hex_bytes_ascii, lemma_hex_bytes_push, uuid_text};
use crate::text::{all_ascii, ascii_chars, ascii_to_string};
use crate::time::{Duration, NANOS_PER_SEC};

verus! {

/// How long a BLE sighting counts as evidence.
pub const BLE_OBSERVATION_TTL_SECS: u64 = 15;

/// Longest provider-state detail kept, in characters.
pub const MAX_STATE_DETAIL_CHARS: usize = 160;

#[derive(Clone, Copy, Debug, PartialEq, Eq, Structural)]
pub enum DeviceType {
    Unknown,
    Android,
    Ios,
    Macos,
    Windows,
    Linux,
}

pub open spec fn to_presence_device_type(v: DeviceType) -> PresenceDeviceType {
    match v {
        DeviceType::Unknown => PresenceDeviceType::Unknown,
        DeviceType::Android => PresenceDeviceType::Android,
        DeviceType::Ios => PresenceDeviceType::Ios,
        DeviceType::Macos => PresenceDeviceType::Macos,
        DeviceType::Windows => PresenceDeviceType::Windows,
        DeviceType::Linux => PresenceDeviceType::Linux,
    }
}

pub open spec fn from_presence_device_type(v: PresenceDeviceType) -> DeviceType {
    match v {
        PresenceDeviceType::Unknown => DeviceType::Unknown,
        PresenceDeviceType::Android => DeviceType::Android,
        PresenceDeviceType::Ios => DeviceType::Ios,
        PresenceDeviceType::Macos => DeviceType::Macos,
        PresenceDeviceType::Windows => DeviceType::Windows,
        PresenceDeviceType::Linux => DeviceType::Linux,
    }
}

impl From<DeviceType> for PresenceDeviceType {
    fn from(value: DeviceType) -> (r: Self) {
        match value {
            DeviceType::Unknown => PresenceDeviceType::Unknown,
            DeviceType::Android => PresenceDeviceType::Android,
            DeviceType::Ios => PresenceDeviceType::Ios,
            DeviceType::Macos => PresenceDeviceType::Macos,
            DeviceType::Windows => PresenceDeviceType::Windows,
            DeviceType::Linux => PresenceDeviceType::Linux,
        }
    }
}

impl vstd::std_specs::convert::FromSpecImpl<DeviceType> for PresenceDeviceType {
    open spec fn obeys_from_spec() -> bool {
        true
    }

    open spec fn from_spec(v: DeviceType) -> Self {
        to_presence_device_type(v)
    }
}

impl From<PresenceDeviceType> for DeviceType {
    fn from(value: PresenceDeviceType) -> (r: Self) {
        match value {
            PresenceDeviceType::Unknown => DeviceType::Unknown,
            PresenceDeviceType::Android => DeviceType::Android,
            PresenceDeviceType::Ios => DeviceType::Ios,
            PresenceDeviceType::Macos => DeviceType::Macos,
            PresenceDeviceType::Windows => DeviceType::Windows,
            PresenceDeviceType::Linux => DeviceType::Linux,
        }
    }
}

impl vstd::std_specs::convert::FromSpecImpl<PresenceDeviceType> for DeviceType {
    open spec fn obeys_from_spec() -> bool {
        true
    }

    open spec fn from_spec(v: PresenceDeviceType) -> Self {
        from_presence_device_type(v)
    }
}

/// The two device-type enumerations convert into each other losslessly.
pub proof fn lemma_device_type_conversions_invert(v: DeviceType, w: PresenceDeviceType)
    ensures
        from_presence_device_type(to_presence_device_type(v)) == v,
        to_presence_device_type(from_presence_device_type(w)) == w,
{
}

/// What the facade starts discovery with.
#[derive(Clone, Copy, Debug, PartialEq, Eq)]
pub struct DiscoveryConfig {
    quic_port: u16,
    enable_lan: bool,
    device_type: DeviceType,
}

impl DiscoveryConfig {
    pub closed spec fn spec_quic_port(self) -> u16 {
        self.quic_port
    }

    pub closed spec fn spec_enable_lan(self) -> bool {
        self.enable_lan
    }

    pub closed spec fn spec_device_type(self) -> DeviceType {
        self.device_type
    }

    /// LAN providers are on unless switched off.
    pub fn new(quic_port: u16, device_type: DeviceType) -> (r: Self)
        ensures
            r.spec_quic_port() == quic_port,
            r.spec_enable_lan(),
            r.spec_device_type() == device_type,
    {
        DiscoveryConfig { quic_port, enable_lan: true, device_type }
    }

    pub fn with_lan(self, enable_lan: bool) -> (r: Self)
        ensures
            r.spec_quic_port() == self.spec_quic_port(),
            r.spec_enable_lan() == enable_lan,
            r.spec_device_type() == self.spec_device_type(),
    {
        DiscoveryConfig { enable_lan, ..self }
    }

    pub fn quic_port(&self) -> (r: u16)
        ensures
            r == self.spec_quic_port(),
    {
        self.quic_port
    }

    pub fn enable_lan(&self) -> (r: bool)
        ensures
            r == self.spec_enable_lan(),
    {
        self.enable_lan
    }

    pub fn device_type(&self) -> (r: DeviceType)
        ensures
            r == self.spec_device_type(),
    {
        self.device_type
    }
}

#[derive(Clone, Debug, PartialEq, Eq)]
pub struct DiscoveryStartup {
    pub presence_id: String,
    pub device_type: DeviceType,
    pub ble_presence: Vec<u8>,
}

#[derive(Clone, Debug, PartialEq, Eq)]
pub struct DiscoveryPeer {
    pub presence_id: String,
    pub device_type: DeviceType,
    pub compatible: bool,
    pub capabilities: u64,
    pub sources: Vec<String>,
    pub best_endpoint: Option<String>,
    pub candidate_endpoints: Vec<String>,
    pub candidate_count: u32,
    pub quarantined: bool,
}

#[derive(Clone, Debug, PartialEq, Eq)]
pub struct DiscoveryProviderStatus {
    pub name: String,
    pub kind: String,
    pub state: String,
    pub detail: Option<String>,
}

#[derive(Clone, Copy, Debug, PartialEq, Eq, Structural)]
pub enum PlatformProviderState {
    Starting,
    Ready,
    Degraded,
    PermissionRequired,
    PermissionDenied,
    HardwareOff,
    Unsupported,
    TemporarilyUnavailable,
    Stopped,
}

#[derive(Clone, Debug, PartialEq, Eq)]
pub enum DiscoveryError {
    UnknownPlatform,
    Core(String),
}

/// The presence a facade advertises: protocol version 1 only, default
/// capabilities carrying the device type, and the configured QUIC port.
pub fn local_presence(config: &DiscoveryConfig, presence_id: PresenceId) -> (r: Result<
    LocalPresence,
    DiscoveryError,
>)
    ensures
        r is Ok <==> config.spec_quic_port() != 0,
        r matches Ok(l) ==> {
            &&& l.presence_id == presence_id
            &&& l.protocol.lo() == 1 && l.protocol.hi() == 1
            &&& l.capabilities == Capabilities(0).spec_with_device_type(
                to_presence_device_type(config.spec_device_type()),
            )
            &&& l.quic_port == config.spec_quic_port()
        },
{
    let protocol = match ProtocolRange::new(1, 1) {
        Ok(p) => p,
        Err(_) => return Err(DiscoveryError::Core("invalid protocol range".to_owned())),
    };
    let capabilities = Capabilities::from_bits(0).with_device_type(config.device_type.into());
    match LocalPresence::new(presence_id, protocol, capabilities, config.quic_port) {
        Ok(l) => Ok(l),
        Err(_) => Err(DiscoveryError::Core("invalid QUIC listener port".to_owned())),
    }
}

/// The BLE sequence number after a refresh, saturating at the maximum.
pub fn next_ble_sequence(sequence: u64) -> (r: u64)
    ensures
        r == (if sequence == u64::MAX {
            u64::MAX as int
        } else {
            sequence + 1
        }),
{
    sequence.saturating_add(1)
}

/// The TTL given to BLE sightings.
pub fn ble_observation_ttl() -> (r: Duration)
    ensures
        r.spec_nanos() == BLE_OBSERVATION_TTL_SECS * NANOS_PER_SEC,
{
    Duration::from_secs(BLE_OBSERVATION_TTL_SECS)
}

/// `android`, `ios`, `macos` and `windows` as bytes.
pub open spec fn platform_bytes(i: int) -> Seq<u8> {
    if i == 0 {
        seq![97u8, 110u8, 100u8, 114u8, 111u8, 105u8, 100u8]
    } else if i == 1 {
        seq![105u8, 111u8, 115u8]
    } else if i == 2 {
        seq![109u8, 97u8, 99u8, 111u8, 115u8]
    } else {
        seq![119u8, 105u8, 110u8, 100u8, 111u8, 119u8, 115u8]
    }
}

/// The BLE provider name of each known platform.
pub open spec fn ble_provider_name(i: int) -> Seq<char> {
    if i == 0 {
        seq!['b', 'l', 'e', '-', 'a', 'n', 'd', 'r', 'o', 'i', 'd']
    } else if i == 1 {
        seq!['b', 'l', 'e', '-', 'i', 'o', 's']
    } else if i == 2 {
        seq!['b', 'l', 'e', '-', 'm', 'a', 'c', 'o', 's']
    } else {
        seq!['b', 'l', 'e', '-', 'w', 'i', 'n', 'd', 'o', 'w', 's']
    }
}

/// The BLE provider of a platform adapter: `ble-android`, `ble-ios`,
/// `ble-macos` or `ble-windows`; any other platform is refused.
pub fn ble_provider_id(platform: &str) -> (r: Result<ProviderId, DiscoveryError>)
    ensures
        r is Ok <==> exists|i: int| 0 <= i < 4 && platform.spec_bytes() == #[trigger] platform_bytes(i),
        forall|i: int|
            0 <= i < 4 && platform.spec_bytes() == #[trigger] platform_bytes(i) ==> (r matches Ok(id)
                && id.spec_kind() == ProviderKind::Ble && id.spec_name() == ble_provider_name(i)),
        r matches Err(e) ==> e == DiscoveryError::UnknownPlatform,
{
    let bytes = platform.as_bytes();
    let android: [u8; 7] = [97u8, 110u8, 100u8, 114u8, 111u8, 105u8, 100u8];
    let ios: [u8; 3] = [105u8, 111u8, 115u8];
    let macos: [u8; 5] = [109u8, 97u8, 99u8, 111u8, 115u8];
    let windows: [u8; 7] = [119u8, 105u8, 110u8, 100u8, 111u8, 119u8, 115u8];
    assert(android@ =~= platform_bytes(0));
    assert(ios@ =~= platform_bytes(1));
    assert(macos@ =~= platform_bytes(2));
    assert(windows@ =~= platform_bytes(3));
    let name: String = if crate::be_bytes::bytes_equal(bytes, android.as_slice()) {
        let n = vec!['b', 'l', 'e', '-', 'a', 'n', 'd', 'r', 'o', 'i', 'd'];
        chars_to_string(&n)
    } else if crate::be_bytes::bytes_equal(bytes, ios.as_slice()) {
        let n = vec!['b', 'l', 'e', '-', 'i', 'o', 's'];
        chars_to_string(&n)
    } else if crate::be_bytes::bytes_equal(bytes, macos.as_slice()) {
        let n = vec!['b', 'l', 'e', '-', 'm', 'a', 'c', 'o', 's'];
        chars_to_string(&n)
    } else if crate::be_bytes::bytes_equal(bytes, windows.as_slice()) {
        let n = vec!['b', 'l', 'e', '-', 'w', 'i', 'n', 'd', 'o', 'w', 's'];
        chars_to_string(&n)
    } else {
        return Err(DiscoveryError::UnknownPlatform);
    };
    Ok(ProviderId::builtin(ProviderKind::Ble, name.as_str()))
}

/// A `String` of ASCII characters.
fn chars_to_string(chars: &Vec<char>) -> (r: String)
    requires
        forall|i: int| 0 <= i < chars@.len() ==> (#[trigger] chars@[i] as u32) < 128,
    ensures
        r@ == chars@,
{
    let mut bytes: Vec<u8> = Vec::new();
    let mut i: usize = 0;
    while i < chars.len()
        invariant
            i <= chars@.len(),
            forall|j: int| 0 <= j < chars@.len() ==> (#[trigger] chars@[j] as u32) < 128,
            bytes@.len() == i,
            forall|j: int|
                0 <= j < i ==> (#[trigger] bytes@[j] as u32) == chars@[j] as u32 && bytes@[j] < 128,
        decreases chars@.len() - i,
    {
        let u = chars[i] as u32;
        bytes.push(u as u8);
        i = i + 1;
    }
    let r = crate::text::ascii_to_string(bytes.as_slice());
    proof {
        assert forall|j: int| 0 <= j < chars@.len() implies r@[j] == chars@[j] by {
            let b = bytes@[j];
            vstd::utf8::char_u32_cast(chars@[j], b as u32);
            assert((b as u32) as char == chars@[j]);
            assert(b as char == (b as u32) as char);
        }
        assert(r@ =~= chars@);
    }
    r
}

pub open spec fn spec_provider_kind_name(kind: ProviderKind) -> Seq<char> {
    match kind {
        ProviderKind::Ble => seq!['b', 'l', 'e'],
        ProviderKind::Mdns => seq!['m', 'd', 'n', 's'],
        ProviderKind::PresenceV4 => seq!['p', 'r', 'e', 's', 'e', 'n', 'c', 'e', '_', 'v', '4'],
        ProviderKind::PresenceV6 => seq!['p', 'r', 'e', 's', 'e', 'n', 'c', 'e', '_', 'v', '6'],
        ProviderKind::Direct => seq!['d', 'i', 'r', 'e', 'c', 't'],
        ProviderKind::WifiAware => seq!['w', 'i', 'f', 'i', '_', 'a', 'w', 'a', 'r', 'e'],
        ProviderKind::WifiDirect => seq!['w', 'i', 'f', 'i', '_', 'd', 'i', 'r', 'e', 'c', 't'],
        ProviderKind::Custom => seq!['c', 'u', 's', 't', 'o', 'm'],
    }
}

/// The stable name of a provider kind in status reports.
pub fn provider_kind_name(kind: &ProviderKind) -> (r: String)
    ensures
        r@ == spec_provider_kind_name(*kind),
{
    let chars = match kind {
        ProviderKind::Ble => vec!['b', 'l', 'e'],
        ProviderKind::Mdns => vec!['m', 'd', 'n', 's'],
        ProviderKind::PresenceV4 => vec!['p', 'r', 'e', 's', 'e', 'n', 'c', 'e', '_', 'v', '4'],
        ProviderKind::PresenceV6 => vec!['p', 'r', 'e', 's', 'e', 'n', 'c', 'e', '_', 'v', '6'],
        ProviderKind::Direct => vec!['d', 'i', 'r', 'e', 'c', 't'],
        ProviderKind::WifiAware => vec!['w', 'i', 'f', 'i', '_', 'a', 'w', 'a', 'r', 'e'],
        ProviderKind::WifiDirect => vec!['w', 'i', 'f', 'i', '_', 'd', 'i', 'r', 'e', 'c', 't'],
        ProviderKind::Custom => vec!['c', 'u', 's', 't', 'o', 'm'],
    };
    proof {
        assert(chars@ =~= spec_provider_kind_name(*kind));
    }
    chars_to_string(&chars)
}

/// The digits of `b[..i]` with a hyphen before each group after the first.
spec fn uuid_prefix(b: Seq<u8>, i: int) -> Seq<u8>
    decreases i,
{
    if i <= 0 {
        Seq::empty()
    } else {
        let rest = uuid_prefix(b, i - 1);
        let dash = if i - 1 == 4 || i - 1 == 6 || i - 1 == 8 || i - 1 == 10 {
            seq![45u8]
        } else {
            Seq::empty()
        };
        rest + dash + seq![
            crate::discovery::model::hex_digit(b[i - 1] / 16),
            crate::discovery::model::hex_digit(b[i - 1] % 16),
        ]
    }
}

proof fn lemma_uuid_group(b: Seq<u8>, from: int, to: int)
    requires
        0 <= from <= to <= b.len(),
        from == 0 || from == 4 || from == 6 || from == 8 || from == 10,
        to <= 4 || (from > 0 && (to <= 6 && from == 4 || to <= 8 && from == 6 || to <= 10 && from
            == 8 || from == 10)),
    ensures
        uuid_prefix(b, to) == uuid_prefix(b, from) + (if from > 0 && to > from {
            seq![45u8]
        } else {
            Seq::<u8>::empty()
        }) + hex_bytes(b.subrange(from, to)),
    decreases to - from,
{
    if to == from {
        assert(b.subrange(from, to) =~= Seq::<u8>::empty());
        assert(hex_bytes(Seq::<u8>::empty()) =~= Seq::<u8>::empty());
        assert(uuid_prefix(b, from) + Seq::<u8>::empty() + Seq::<u8>::empty() =~= uuid_prefix(b, from));
    } else {
        lemma_uuid_group(b, from, to - 1);
        assert(b.subrange(from, to) =~= b.subrange(from, to - 1).push(b[to - 1]));
        lemma_hex_bytes_push(b.subrange(from, to - 1), b[to - 1]);
        if to - 1 == from {
            assert(b.subrange(from, to - 1) =~= Seq::<u8>::empty());
            assert(hex_bytes(Seq::<u8>::empty()) =~= Seq::<u8>::empty());
        }
        let dash = if from > 0 {
            seq![45u8]
        } else {
            Seq::<u8>::empty()
        };
        if to - 1 == from {
            assert(uuid_prefix(b, to) =~= uuid_prefix(b, from) + dash + hex_bytes(b.subrange(from, to)));
        } else {
            assert(uuid_prefix(b, to) =~= uuid_prefix(b, from) + dash + hex_bytes(b.subrange(from, to)));
        }
    }
}

proof fn lemma_uuid_prefix_full(b: Seq<u8>)
    requires
        b.len() == 16,
    ensures
        uuid_prefix(b, 16) == uuid_text(b),
{
    lemma_uuid_group(b, 0, 4);
    lemma_uuid_group(b, 4, 6);
    lemma_uuid_group(b, 6, 8);
    lemma_uuid_group(b, 8, 10);
    lemma_uuid_group(b, 10, 16);
    assert(uuid_prefix(b, 0) =~= Seq::<u8>::empty());
    assert(uuid_prefix(b, 16) =~= uuid_text(b));
}

/// The text of a presence id, as its UUID.
pub fn presence_id_text(id: &PresenceId) -> (r: String)
    ensures
        r@ == ascii_chars(uuid_text(id.0@)),
{
    let ghost b = id.0@;
    let mut out: Vec<u8> = Vec::new();
    let mut i: usize = 0;
    while i < 16
        invariant
            i <= 16,
            b == id.0@,
            b.len() == 16,
            out@ == uuid_prefix(b, i as int),
            all_ascii(out@),
        decreases 16 - i,
    {
        if i == 4 || i == 6 || i == 8 || i == 10 {
            out.push(45u8);
        }
        let v = id.0[i];
        out.push(crate::discovery::model::hex_digit_exec(v / 16));
        out.push(crate::discovery::model::hex_digit_exec(v % 16));
        i = i + 1;
        assert(out@ =~= uuid_prefix(b, i as int));
    }
    proof {
        lemma_uuid_prefix_full(b);
    }
    ascii_to_string(out.as_slice())
}

/// A platform's detail, cut to its first `MAX_STATE_DETAIL_CHARS`
/// characters; none reads as empty.
pub open spec fn bounded_detail(detail: Option<String>) -> Seq<char> {
    let text = match detail {
        Some(d) => d@,
        None => Seq::empty(),
    };
    if text.len() > MAX_STATE_DETAIL_CHARS {
        text.subrange(0, MAX_STATE_DETAIL_CHARS as int)
    } else {
        text
    }
}

/// The provider state a platform report stands for. States that carry a
/// detail keep it, bounded.
pub fn normalize_provider_state(state: PlatformProviderState, detail: Option<String>) -> (r:
    ProviderState)
    ensures
        match state {
            PlatformProviderState::Starting => r == ProviderState::Starting,
            PlatformProviderState::Ready => r == ProviderState::Ready,
            PlatformProviderState::HardwareOff => r == ProviderState::HardwareOff,
            PlatformProviderState::Unsupported => r == ProviderState::Unsupported,
            PlatformProviderState::Stopped => r == ProviderState::Stopped,
            PlatformProviderState::Degraded => r matches ProviderState::Degraded(d) && d@
                == bounded_detail(detail),
            PlatformProviderState::PermissionRequired => r matches ProviderState::PermissionRequired(
                d,
            ) && d@ == bounded_detail(detail),
            PlatformProviderState::PermissionDenied => r matches ProviderState::PermissionDenied(d)
                && d@ == bounded_detail(detail),
            PlatformProviderState::TemporarilyUnavailable => r matches ProviderState::TemporarilyUnavailable(
                d,
            ) && d@ == bounded_detail(detail),
        },
{
    let text = match detail {
        Some(d) => d,
        None => String::new(),
    };
    let n = text.as_str().unicode_len();
    let end = if n > MAX_STATE_DETAIL_CHARS {
        MAX_STATE_DETAIL_CHARS
    } else {
        n
    };
    let bounded = String::from_str(text.as_str().substring_char(0, end));
    proof {
        if n <= MAX_STATE_DETAIL_CHARS {
            assert(text@.subrange(0, end as int) =~= text@);
        }
    }
    match state {
        PlatformProviderState::Starting => ProviderState::Starting,
        PlatformProviderState::Ready => ProviderState::Ready,
        PlatformProviderState::Degraded => ProviderState::Degraded(bounded),
        PlatformProviderState::PermissionRequired => ProviderState::PermissionRequired(bounded),
        PlatformProviderState::PermissionDenied => ProviderState::PermissionDenied(bounded),
        PlatformProviderState::HardwareOff => ProviderState::HardwareOff,
        PlatformProviderState::Unsupported => ProviderState::Unsupported,
        PlatformProviderState::TemporarilyUnavailable => ProviderState::TemporarilyUnavailable(
            bounded,
        ),
        PlatformProviderState::Stopped => ProviderState::Stopped,
    }
}

/// The name an application sees for a provider state.
pub open spec fn state_name(state: ProviderState) -> Seq<char> {
    match state {
        ProviderState::Starting => "starting"@,
        ProviderState::Ready => "ready"@,
        ProviderState::Degraded(_) => "degraded"@,
        ProviderState::PermissionRequired(_) => "permission_required"@,
        ProviderState::PermissionDenied(_) => "permission_denied"@,
        ProviderState::HardwareOff => "hardware_off"@,
        ProviderState::Unsupported => "unsupported"@,
        ProviderState::TemporarilyUnavailable(_) => "temporarily_unavailable"@,
        ProviderState::Failed { recoverable, .. } => if recoverable {
            "failed_recoverable"@
        } else {
            "failed"@
        },
        ProviderState::Stopped => "stopped"@,
    }
}

/// The detail an application sees for a provider state.
pub open spec fn state_detail(state: ProviderState) -> Option<Seq<char>> {
    match state {
        ProviderState::Degraded(d) | ProviderState::PermissionRequired(d)
        | ProviderState::PermissionDenied(d) | ProviderState::TemporarilyUnavailable(d) => Some(d@),
        ProviderState::Failed { reason, .. } => Some(reason@),
        _ => None,
    }
}

/// A provider's health as an application sees it.
pub fn provider_status(provider: &ProviderId, state: &ProviderState) -> (r: DiscoveryProviderStatus)
    ensures
        r.name@ == provider.spec_name(),
        r.kind@ == spec_provider_kind_name(provider.spec_kind()),
        r.state@ == state_name(*state),
        match state_detail(*state) {
            Some(d) => r.detail matches Some(t) && t@ == d,
            None => r.detail is None,
        },
{
    let (name, detail): (&str, Option<String>) = match state {
        ProviderState::Starting => ("starting", None),
        ProviderState::Ready => ("ready", None),
        ProviderState::Degraded(d) => ("degraded", Some(d.clone())),
        ProviderState::PermissionRequired(d) => ("permission_required", Some(d.clone())),
        ProviderState::PermissionDenied(d) => ("permission_denied", Some(d.clone())),
        ProviderState::HardwareOff => ("hardware_off", None),
        ProviderState::Unsupported => ("unsupported", None),
        ProviderState::TemporarilyUnavailable(d) => ("temporarily_unavailable", Some(d.clone())),
        ProviderState::Failed { recoverable, reason } => (
            if *recoverable {
                "failed_recoverable"
            } else {
                "failed"
            },
            Some(reason.clone()),
        ),
        ProviderState::Stopped => ("stopped", None),
    };
    DiscoveryProviderStatus {
        name: String::from_str(provider.name()),
        kind: provider_kind_name(provider.kind()),
        state: String::from_str(name),
        detail,
    }
}

} // verus!

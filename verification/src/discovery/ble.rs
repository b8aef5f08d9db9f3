//! BLE rendezvous constants and the presence descriptor that every platform
//! adapter serves and reads. Scanning, advertising and GATT stay native.

use vstd::prelude::*;

use crate::be_bytes::{read_be16, read_be64};
use crate::discovery::model::{LocalPresence, Observation, ProviderId};
use crate::discovery::wire::{
    spec_encode, spec_wire_error, MessageKind, PresenceMessage, WireError,
    PACKET_LEN,
};
use crate::time::Duration;

verus! {

/// Fixed 128-bit GATT service UUID owned by the Halo protocol.
pub const HALO_SERVICE_UUID: &'static str = "b6882c7f-d426-4cb6-9012-d40bde5e2000";

/// Read/notify characteristic containing a fixed presence packet.
pub const PRESENCE_CHARACTERISTIC_UUID: &'static str = "8c2e5e61-4c6a-4c64-b804-1301a15251a0";

/// Write/notify characteristic used to trigger LAN presence announcements.
pub const WAKE_LAN_CHARACTERISTIC_UUID: &'static str = "4fe6e851-dbc1-4a86-8e49-fcf1eabc1c82";

/// Optional read characteristic for bounded, untrusted endpoint hints.
pub const ENDPOINT_HINTS_CHARACTERISTIC_UUID: &'static str = "4672307b-caea-4e1a-8823-0bcea898ec83";

#[derive(Clone, Debug, PartialEq, Eq)]
pub enum BleDescriptorError {
    Wire(WireError),
    UnexpectedKind(MessageKind),
    ZeroTtl,
}

/// The announce message a BLE presence characteristic serves.
pub open spec fn ble_announce(local: LocalPresence, sequence: u64) -> PresenceMessage {
    PresenceMessage {
        kind: MessageKind::Announce,
        reply_port: 0,
        presence_id: local.presence_id,
        quic_port: local.quic_port,
        protocol: local.protocol,
        capabilities: local.capabilities,
        sequence,
        nonce: 0,
    }
}

/// Encodes the value served by the BLE presence characteristic.
pub fn encode_presence(local: &LocalPresence, sequence: u64) -> (r: [u8; PACKET_LEN])
    ensures
        r@ == spec_encode(ble_announce(*local, sequence)),
{
    PresenceMessage::from_local(local, MessageKind::Announce, sequence, 0).encode()
}

/// Validates a BLE presence characteristic and maps it into the shared model.
pub fn decode_presence(bytes: &[u8], provider: ProviderId, ttl: Duration) -> (r: Result<
    Observation,
    BleDescriptorError,
>)
    ensures
        ttl.spec_nanos() == 0 ==> r == Err::<Observation, _>(BleDescriptorError::ZeroTtl),
        ttl.spec_nanos() != 0 && spec_wire_error(bytes@) is Some ==> r == Err::<Observation, _>(
            BleDescriptorError::Wire(spec_wire_error(bytes@)->0),
        ),
        ttl.spec_nanos() != 0 && spec_wire_error(bytes@) is None && bytes@[9] != 3 ==> r == Err::<
            Observation,
            _,
        >(BleDescriptorError::UnexpectedKind(MessageKind::spec_from_code(bytes@[9]))),
        r is Ok <==> ttl.spec_nanos() != 0 && spec_wire_error(bytes@) is None && bytes@[9] == 3,
        r matches Ok(o) ==> {
            &&& o.provider == provider
            &&& o.ttl == ttl
            &&& o.round_trip_time is None
            &&& o.endpoints@.len() == 0
            &&& o.presence_id.0@ == bytes@.subrange(12, 28)
            &&& o.protocol.lo() == read_be16(bytes@, 30)
            &&& o.protocol.hi() == read_be16(bytes@, 32)
            &&& o.capabilities.0 == read_be64(bytes@, 34)
            &&& o.sequence == read_be64(bytes@, 42)
        },
{
    if ttl.is_zero() {
        return Err(BleDescriptorError::ZeroTtl);
    }
    let message = match PresenceMessage::decode(bytes) {
        Ok(m) => m,
        Err(e) => return Err(BleDescriptorError::Wire(e)),
    };
    if message.kind != MessageKind::Announce {
        return Err(BleDescriptorError::UnexpectedKind(message.kind));
    }
    Ok(
        Observation {
            provider,
            presence_id: message.presence_id,
            protocol: message.protocol,
            capabilities: message.capabilities,
            sequence: message.sequence,
            endpoints: Vec::new(),
            ttl,
            round_trip_time: None,
        },
    )
}

} // verus!

//! The fixed-width, 58-byte Halo presence packet.

use vstd::prelude::*;

use crate::be_bytes::{
    be16, be64, bytes_equal, lemma_be16, lemma_be64, push_all, push_be16, push_be64, read_array,
    read_be16, read_be64, read_u16, read_u64,
};
use crate::discovery::model::{Capabilities, LocalPresence, PresenceId, ProtocolRange};

verus! {

pub const PACKET_LEN: usize = 58;

pub const WIRE_VERSION: u8 = 1;

/// The eight bytes `HALODSC1` that open every presence packet.
pub open spec fn presence_magic() -> Seq<u8> {
    seq![0x48u8, 0x41u8, 0x4cu8, 0x4fu8, 0x44u8, 0x53u8, 0x43u8, 0x31u8]
}

fn magic_bytes() -> (r: [u8; 8])
    ensures
        r@ == presence_magic(),
{
    let r: [u8; 8] = [0x48u8, 0x41u8, 0x4cu8, 0x4fu8, 0x44u8, 0x53u8, 0x43u8, 0x31u8];
    assert(r@ =~= presence_magic());
    r
}

#[derive(Clone, Copy, Debug, PartialEq, Eq, Structural)]
pub enum MessageKind {
    Query,
    Response,
    Announce,
    Goodbye,
}

impl MessageKind {
    pub open spec fn spec_code(self) -> u8 {
        match self {
            MessageKind::Query => 1,
            MessageKind::Response => 2,
            MessageKind::Announce => 3,
            MessageKind::Goodbye => 4,
        }
    }

    pub open spec fn spec_from_code(code: u8) -> MessageKind {
        if code == 1 {
            MessageKind::Query
        } else if code == 2 {
            MessageKind::Response
        } else if code == 3 {
            MessageKind::Announce
        } else {
            MessageKind::Goodbye
        }
    }

    pub fn code(self) -> (r: u8)
        ensures
            r == self.spec_code(),
    {
        match self {
            MessageKind::Query => 1,
            MessageKind::Response => 2,
            MessageKind::Announce => 3,
            MessageKind::Goodbye => 4,
        }
    }

    /// The kind with code `value`, or `UnknownKind` for any other byte.
    pub fn try_from_code(value: u8) -> (r: Result<Self, WireError>)
        ensures
            r is Ok <==> 1 <= value <= 4,
            r matches Ok(k) ==> k == Self::spec_from_code(value) && k.spec_code() == value,
            r matches Err(e) ==> e == WireError::UnknownKind(value),
    {
        match value {
            1 => Ok(MessageKind::Query),
            2 => Ok(MessageKind::Response),
            3 => Ok(MessageKind::Announce),
            4 => Ok(MessageKind::Goodbye),
            _ => Err(WireError::UnknownKind(value)),
        }
    }
}

#[derive(Clone, Debug, PartialEq, Eq, Structural)]
pub enum WireError {
    InvalidLength(usize),
    InvalidMagic,
    UnsupportedVersion(u8),
    UnknownKind(u8),
    InvalidReplyPort,
    InvalidPort,
    InvalidProtocolRange,
}

#[derive(Clone, Copy, Debug, PartialEq, Eq)]
pub struct PresenceMessage {
    pub kind: MessageKind,
    /// UDP port where a query expects its unicast response. Zero for every
    /// non-query message.
    pub reply_port: u16,
    pub presence_id: PresenceId,
    pub quic_port: u16,
    pub protocol: ProtocolRange,
    pub capabilities: Capabilities,
    pub sequence: u64,
    pub nonce: u64,
}

/// The packet bytes of a message.
pub open spec fn spec_encode(m: PresenceMessage) -> Seq<u8> {
    presence_magic() + seq![WIRE_VERSION, m.kind.spec_code()] + be16(m.reply_port)
        + m.presence_id.0@ + be16(m.quic_port) + be16(m.protocol.lo()) + be16(m.protocol.hi())
        + be64(m.capabilities.0) + be64(m.sequence) + be64(m.nonce)
}

/// A message that a packet can carry: only queries name a reply port, the
/// QUIC port is non-zero and the version range is well formed.
pub open spec fn message_wf(m: PresenceMessage) -> bool {
    &&& (m.kind == MessageKind::Query) == (m.reply_port != 0)
    &&& m.quic_port != 0
    &&& m.protocol.wf()
}

/// The first check a packet fails, in the order the decoder applies them.
pub open spec fn spec_wire_error(s: Seq<u8>) -> Option<WireError> {
    if s.len() != PACKET_LEN {
        Some(WireError::InvalidLength(s.len() as usize))
    } else if s.subrange(0, 8) != presence_magic() {
        Some(WireError::InvalidMagic)
    } else if s[8] != WIRE_VERSION {
        Some(WireError::UnsupportedVersion(s[8]))
    } else if !(1 <= s[9] <= 4) {
        Some(WireError::UnknownKind(s[9]))
    } else if (s[9] == 1) != (read_be16(s, 10) != 0) {
        Some(WireError::InvalidReplyPort)
    } else if read_be16(s, 28) == 0 {
        Some(WireError::InvalidPort)
    } else if !ProtocolRange::range_ok(read_be16(s, 30), read_be16(s, 32)) {
        Some(WireError::InvalidProtocolRange)
    } else {
        None
    }
}

/// The fields a well-formed packet carries.
pub open spec fn spec_decoded_fields(m: PresenceMessage, s: Seq<u8>) -> bool {
    &&& m.kind == MessageKind::spec_from_code(s[9])
    &&& m.reply_port == read_be16(s, 10)
    &&& m.presence_id.0@ == s.subrange(12, 28)
    &&& m.quic_port == read_be16(s, 28)
    &&& m.protocol.lo() == read_be16(s, 30)
    &&& m.protocol.hi() == read_be16(s, 32)
    &&& m.capabilities.0 == read_be64(s, 34)
    &&& m.sequence == read_be64(s, 42)
    &&& m.nonce == read_be64(s, 50)
}

impl PresenceMessage {
    /// The message a local presence sends: no reply port until one is set.
    pub open spec fn from_local_spec(
        local: LocalPresence,
        kind: MessageKind,
        sequence: u64,
        nonce: u64,
    ) -> Self {
        PresenceMessage {
            kind,
            reply_port: 0,
            presence_id: local.presence_id,
            quic_port: local.quic_port,
            protocol: local.protocol,
            capabilities: local.capabilities,
            sequence,
            nonce,
        }
    }

    pub fn from_local(local: &LocalPresence, kind: MessageKind, sequence: u64, nonce: u64) -> (r:
        Self)
        ensures
            r == Self::from_local_spec(*local, kind, sequence, nonce),
            r == (PresenceMessage {
                kind,
                reply_port: 0,
                presence_id: local.presence_id,
                quic_port: local.quic_port,
                protocol: local.protocol,
                capabilities: local.capabilities,
                sequence,
                nonce,
            }),
    {
        PresenceMessage {
            kind,
            reply_port: 0,
            presence_id: local.presence_id,
            quic_port: local.quic_port,
            protocol: local.protocol,
            capabilities: local.capabilities,
            sequence,
            nonce,
        }
    }

    /// Sets the response port carried by a query.
    pub fn with_reply_port(self, reply_port: u16) -> (r: Self)
        ensures
            r == (PresenceMessage { reply_port, ..self }),
    {
        let mut m = self;
        m.reply_port = reply_port;
        m
    }

    pub fn encode(self) -> (r: [u8; PACKET_LEN])
        ensures
            r@ == spec_encode(self),
    {
        let mut bytes: Vec<u8> = Vec::new();
        let magic = magic_bytes();
        push_all(&mut bytes, magic.as_slice());
        bytes.push(WIRE_VERSION);
        bytes.push(self.kind.code());
        push_be16(&mut bytes, self.reply_port);
        push_all(&mut bytes, self.presence_id.0.as_slice());
        push_be16(&mut bytes, self.quic_port);
        push_be16(&mut bytes, self.protocol.min());
        push_be16(&mut bytes, self.protocol.max());
        push_be64(&mut bytes, self.capabilities.0);
        push_be64(&mut bytes, self.sequence);
        push_be64(&mut bytes, self.nonce);
        assert(bytes@ =~= spec_encode(self));
        assert(bytes@.subrange(0, 58) =~= bytes@);
        read_array::<PACKET_LEN>(bytes.as_slice(), 0)
    }

    pub fn decode(bytes: &[u8]) -> (r: Result<Self, WireError>)
        ensures
            r is Err <==> spec_wire_error(bytes@) is Some,
            r matches Err(e) ==> spec_wire_error(bytes@) == Some(e),
            r matches Ok(m) ==> spec_decoded_fields(m, bytes@) && spec_encode(m) == bytes@
                && message_wf(m),
    {
        if bytes.len() != PACKET_LEN {
            return Err(WireError::InvalidLength(bytes.len()));
        }
        let magic = magic_bytes();
        if !bytes_equal(&bytes[0..8], magic.as_slice()) {
            return Err(WireError::InvalidMagic);
        }
        if bytes[8] != WIRE_VERSION {
            return Err(WireError::UnsupportedVersion(bytes[8]));
        }
        let kind = match MessageKind::try_from_code(bytes[9]) {
            Ok(k) => k,
            Err(e) => return Err(e),
        };
        let reply_port = read_u16(bytes, 10);
        if (bytes[9] == 1) != (reply_port != 0) {
            return Err(WireError::InvalidReplyPort);
        }
        let presence_id = PresenceId(read_array::<16>(bytes, 12));
        let quic_port = read_u16(bytes, 28);
        if quic_port == 0 {
            return Err(WireError::InvalidPort);
        }
        let protocol = match ProtocolRange::new(read_u16(bytes, 30), read_u16(bytes, 32)) {
            Ok(p) => p,
            Err(_) => return Err(WireError::InvalidProtocolRange),
        };
        let m = PresenceMessage {
            kind,
            reply_port,
            presence_id,
            quic_port,
            protocol,
            capabilities: Capabilities(read_u64(bytes, 34)),
            sequence: read_u64(bytes, 42),
            nonce: read_u64(bytes, 50),
        };
        proof {
            let s = bytes@;
            lemma_be16(0, s, 10);
            lemma_be16(0, s, 28);
            lemma_be16(0, s, 30);
            lemma_be16(0, s, 32);
            lemma_be64(0, s, 34);
            lemma_be64(0, s, 42);
            lemma_be64(0, s, 50);
            assert(s.subrange(8, 10) =~= seq![WIRE_VERSION, kind.spec_code()]);
            assert(s =~= s.subrange(0, 8) + s.subrange(8, 10) + s.subrange(10, 12) + s.subrange(
                12,
                28,
            ) + s.subrange(28, 30) + s.subrange(30, 32) + s.subrange(32, 34) + s.subrange(34, 42)
                + s.subrange(42, 50) + s.subrange(50, 58));
            assert(spec_encode(m) =~= s);
        }
        Ok(m)
    }
}

/// Decoding the bytes of any well-formed message gives the message back.
pub proof fn lemma_presence_round_trip(m: PresenceMessage)
    requires
        message_wf(m),
    ensures
        spec_wire_error(spec_encode(m)) is None,
        spec_decoded_fields(m, spec_encode(m)),
{
    let s = spec_encode(m);
    assert(s.len() == 58);
    assert(s[8] == WIRE_VERSION);
    assert(s[9] == m.kind.spec_code());
    assert(s.subrange(0, 8) =~= presence_magic());
    assert(s.subrange(10, 12) =~= be16(m.reply_port));
    assert(s.subrange(12, 28) =~= m.presence_id.0@);
    assert(s.subrange(28, 30) =~= be16(m.quic_port));
    assert(s.subrange(30, 32) =~= be16(m.protocol.lo()));
    assert(s.subrange(32, 34) =~= be16(m.protocol.hi()));
    assert(s.subrange(34, 42) =~= be64(m.capabilities.0));
    assert(s.subrange(42, 50) =~= be64(m.sequence));
    assert(s.subrange(50, 58) =~= be64(m.nonce));
    lemma_be16(m.reply_port, s, 10);
    lemma_be16(m.quic_port, s, 28);
    lemma_be16(m.protocol.lo(), s, 30);
    lemma_be16(m.protocol.hi(), s, 32);
    lemma_be64(m.capabilities.0, s, 34);
    lemma_be64(m.sequence, s, 42);
    lemma_be64(m.nonce, s, 50);
}

/// Two messages with the same packet bytes are the same message.
pub proof fn lemma_presence_encoding_injective(a: PresenceMessage, b: PresenceMessage)
    requires
        message_wf(a),
        message_wf(b),
        spec_encode(a) == spec_encode(b),
    ensures
        a == b,
{
    lemma_presence_round_trip(a);
    lemma_presence_round_trip(b);
    assert(a.kind.spec_code() == spec_encode(a)[9]);
    assert(b.kind.spec_code() == spec_encode(b)[9]);
    assert(a.presence_id.0@ =~= b.presence_id.0@);
    assert forall|i: int| 0 <= i < 16 implies a.presence_id.0[i] == b.presence_id.0[i] by {
        assert(a.presence_id.0@[i] == b.presence_id.0@[i]);
    }
    assert(a.presence_id.0 =~= b.presence_id.0);
    ProtocolRange::lemma_eq_by_ends(a.protocol, b.protocol);
}

} // verus!

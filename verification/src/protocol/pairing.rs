//! Pairing control frames: a fixed 12-byte header followed by one of four
//! fixed-length, signed payloads.

use vstd::prelude::*;

use crate::be_bytes::{
    be16, be32, be64, lemma_be16, lemma_be32, lemma_be64, push_all, push_be16, push_be32, push_be64,
    read_array, read_be16, read_be32, read_be64, read_u16, read_u32, read_u64,
};

verus! {

pub const WIRE_VERSION: u16 = 1;

pub const HEADER_LEN: usize = 12;

pub const MAX_FRAME_LEN: usize = 4096;

pub const NONCE_LEN: usize = 32;

pub const IDENTITY_KEY_LEN: usize = 65;

pub const SIGNATURE_LEN: usize = 64;

pub const TRANSCRIPT_HASH_LEN: usize = 32;

pub const CLIENT_HELLO_KIND: u8 = 1;

pub const SERVER_HELLO_KIND: u8 = 2;

pub const PAIRING_DECISION_KIND: u8 = 3;

pub const PAIRING_COMMIT_KIND: u8 = 4;

pub const CLIENT_HELLO_LEN: usize = 173;

pub const SERVER_HELLO_LEN: usize = 207;

pub const PAIRING_DECISION_LEN: usize = 97;

pub const PAIRING_COMMIT_LEN: usize = 96;

/// The four magic bytes `HALO` that open every control frame.
pub open spec fn halo_magic() -> Seq<u8> {
    seq![0x48u8, 0x41u8, 0x4cu8, 0x4fu8]
}

/// Inclusive, non-empty range of application protocol versions.
#[derive(Clone, Copy, Debug, PartialEq, Eq)]
pub struct ProtocolRange {
    min: u16,
    max: u16,
}

impl ProtocolRange {
    /// Lowest version of the range.
    pub closed spec fn lo(self) -> u16 {
        self.min
    }

    /// Highest version of the range.
    pub closed spec fn hi(self) -> u16 {
        self.max
    }

    /// A range built by `new`: both ends non-zero and ordered.
    pub open spec fn wf(self) -> bool {
        0 < self.lo() && self.lo() <= self.hi()
    }

    pub fn new(min: u16, max: u16) -> (r: Result<Self, ProtocolError>)
        ensures
            match r {
                Ok(range) => range.lo() == min && range.hi() == max && range.wf(),
                Err(e) => e == (ProtocolError::InvalidVersionRange { min, max }),
            },
            r is Ok <==> (min != 0 && max != 0 && min <= max),
    {
        if min == 0 || max == 0 || min > max {
            return Err(ProtocolError::InvalidVersionRange { min, max });
        }
        Ok(Self { min, max })
    }

    pub fn min(self) -> (r: u16)
        ensures
            r == self.lo(),
    {
        self.min
    }

    pub fn max(self) -> (r: u16)
        ensures
            r == self.hi(),
    {
        self.max
    }

    /// The highest version shared by both ranges, if they overlap.
    pub open spec fn negotiated(self, remote: Self) -> Option<u16> {
        let lo = if self.lo() >= remote.lo() {
            self.lo()
        } else {
            remote.lo()
        };
        let hi = if self.hi() <= remote.hi() {
            self.hi()
        } else {
            remote.hi()
        };
        if lo <= hi {
            Some(hi)
        } else {
            None
        }
    }

    pub fn negotiate(self, remote: Self) -> (r: Option<u16>)
        ensures
            r == self.negotiated(remote),
    {
        let min = if self.min >= remote.min {
            self.min
        } else {
            remote.min
        };
        let max = if self.max <= remote.max {
            self.max
        } else {
            remote.max
        };
        if min <= max {
            Some(max)
        } else {
            None
        }
    }

    pub fn contains(self, version: u16) -> (r: bool)
        ensures
            r == (self.lo() <= version && version <= self.hi()),
    {
        version >= self.min && version <= self.max
    }
}

/// Feature bits advertised during pairing.
#[derive(Clone, Copy, Debug, Default, PartialEq, Eq)]
pub struct Capabilities(pub u64);

impl Capabilities {
    pub fn from_bits(bits: u64) -> (r: Self)
        ensures
            r.0 == bits,
    {
        Capabilities(bits)
    }

    pub fn bits(self) -> (r: u64)
        ensures
            r == self.0,
    {
        self.0
    }

    pub fn intersection(self, remote: Self) -> (r: Self)
        ensures
            r.0 == self.0 & remote.0,
    {
        Capabilities(self.0 & remote.0)
    }
}

#[derive(Clone, Debug, PartialEq, Eq)]
pub struct ClientHello {
    pub versions: ProtocolRange,
    pub capabilities: Capabilities,
    pub nonce: [u8; NONCE_LEN],
    pub identity_key: [u8; IDENTITY_KEY_LEN],
    pub signature: [u8; SIGNATURE_LEN],
}

#[derive(Clone, Debug, PartialEq, Eq)]
pub struct ServerHello {
    pub selected_version: u16,
    pub versions: ProtocolRange,
    pub capabilities: Capabilities,
    pub nonce: [u8; NONCE_LEN],
    pub identity_key: [u8; IDENTITY_KEY_LEN],
    pub client_hello_hash: [u8; TRANSCRIPT_HASH_LEN],
    pub signature: [u8; SIGNATURE_LEN],
}

#[derive(Clone, Debug, PartialEq, Eq)]
pub struct PairingDecision {
    pub transcript_hash: [u8; TRANSCRIPT_HASH_LEN],
    pub accepted: bool,
    pub signature: [u8; SIGNATURE_LEN],
}

#[derive(Clone, Debug, PartialEq, Eq)]
pub struct PairingCommit {
    pub transcript_hash: [u8; TRANSCRIPT_HASH_LEN],
    pub signature: [u8; SIGNATURE_LEN],
}

#[derive(Clone, Debug, PartialEq, Eq)]
pub enum PairingMessage {
    ClientHello(ClientHello),
    ServerHello(ServerHello),
    Decision(PairingDecision),
    Commit(PairingCommit),
}

#[derive(Clone, Debug, PartialEq, Eq)]
pub enum ProtocolError {
    TruncatedHeader(usize),
    FrameTooLarge(usize),
    InvalidMagic,
    UnsupportedWireVersion(u16),
    UnknownMessageKind(u8),
    ReservedFlags(u8),
    PayloadLength { declared: usize, actual: usize },
    MessageLength { expected: usize, actual: usize },
    InvalidVersionRange { min: u16, max: u16 },
    InvalidSelectedVersion,
    InvalidBoolean(u8),
}

/// The signed part of a `ClientHello` payload.
pub open spec fn client_hello_unsigned(m: ClientHello) -> Seq<u8> {
    be16(m.versions.lo()) + be16(m.versions.hi()) + be64(m.capabilities.0) + m.nonce@
        + m.identity_key@
}

/// The signed part of a `ServerHello` payload.
pub open spec fn server_hello_unsigned(m: ServerHello) -> Seq<u8> {
    be16(m.selected_version) + be16(m.versions.lo()) + be16(m.versions.hi()) + be64(
        m.capabilities.0,
    ) + m.nonce@ + m.identity_key@ + m.client_hello_hash@
}

/// The signed part of a `PairingDecision` payload.
pub open spec fn decision_unsigned(m: PairingDecision) -> Seq<u8> {
    m.transcript_hash@ + seq![if m.accepted { 1u8 } else { 0u8 }]
}

/// The signed part of a `PairingCommit` payload.
pub open spec fn commit_unsigned(m: PairingCommit) -> Seq<u8> {
    m.transcript_hash@
}

/// Message kind byte and full payload of a message.
pub open spec fn message_kind(m: PairingMessage) -> u8 {
    match m {
        PairingMessage::ClientHello(_) => CLIENT_HELLO_KIND,
        PairingMessage::ServerHello(_) => SERVER_HELLO_KIND,
        PairingMessage::Decision(_) => PAIRING_DECISION_KIND,
        PairingMessage::Commit(_) => PAIRING_COMMIT_KIND,
    }
}

pub open spec fn message_payload(m: PairingMessage) -> Seq<u8> {
    match m {
        PairingMessage::ClientHello(c) => client_hello_unsigned(c) + c.signature@,
        PairingMessage::ServerHello(s) => server_hello_unsigned(s) + s.signature@,
        PairingMessage::Decision(d) => decision_unsigned(d) + d.signature@,
        PairingMessage::Commit(c) => commit_unsigned(c) + c.signature@,
    }
}

/// A control frame: magic, wire version, kind, zero flags, payload length and payload.
pub open spec fn control_frame(kind: u8, payload: Seq<u8>) -> Seq<u8> {
    halo_magic() + be16(WIRE_VERSION) + seq![kind, 0u8] + be32(payload.len() as u32) + payload
}

/// The canonical encoding of a pairing message.
pub open spec fn encoded_message(m: PairingMessage) -> Seq<u8> {
    control_frame(message_kind(m), message_payload(m))
}

/// Whether a message can be decoded again after encoding: its version
/// ranges are well formed and a selected version is non-zero.
pub open spec fn message_wf(m: PairingMessage) -> bool {
    match m {
        PairingMessage::ClientHello(c) => c.versions.wf(),
        PairingMessage::ServerHello(s) => s.versions.wf() && s.selected_version != 0,
        PairingMessage::Decision(_) => true,
        PairingMessage::Commit(_) => true,
    }
}

/// `n` as a `usize`, saturated at `usize::MAX`.
pub open spec fn saturating_usize(n: int) -> usize {
    if n > usize::MAX {
        usize::MAX
    } else {
        n as usize
    }
}

pub open spec fn range_error(min: u16, max: u16) -> Option<ProtocolError> {
    if min == 0 || max == 0 || min > max {
        Some(ProtocolError::InvalidVersionRange { min, max })
    } else {
        None
    }
}

/// The first check that a payload of the given kind fails, if any.
pub open spec fn payload_error(kind: u8, p: Seq<u8>) -> Option<ProtocolError> {
    if kind == CLIENT_HELLO_KIND {
        if p.len() != CLIENT_HELLO_LEN {
            Some(ProtocolError::MessageLength { expected: CLIENT_HELLO_LEN, actual: p.len() as usize })
        } else {
            range_error(read_be16(p, 0), read_be16(p, 2))
        }
    } else if kind == SERVER_HELLO_KIND {
        if p.len() != SERVER_HELLO_LEN {
            Some(ProtocolError::MessageLength { expected: SERVER_HELLO_LEN, actual: p.len() as usize })
        } else if read_be16(p, 0) == 0 {
            Some(ProtocolError::InvalidSelectedVersion)
        } else {
            range_error(read_be16(p, 2), read_be16(p, 4))
        }
    } else if kind == PAIRING_DECISION_KIND {
        if p.len() != PAIRING_DECISION_LEN {
            Some(
                ProtocolError::MessageLength { expected: PAIRING_DECISION_LEN, actual: p.len() as usize },
            )
        } else if p[32] > 1 {
            Some(ProtocolError::InvalidBoolean(p[32]))
        } else {
            None
        }
    } else if kind == PAIRING_COMMIT_KIND {
        if p.len() != PAIRING_COMMIT_LEN {
            Some(ProtocolError::MessageLength { expected: PAIRING_COMMIT_LEN, actual: p.len() as usize })
        } else {
            None
        }
    } else {
        Some(ProtocolError::UnknownMessageKind(kind))
    }
}

/// The first check that a frame fails, in the order the decoder applies them.
pub open spec fn frame_error(f: Seq<u8>) -> Option<ProtocolError> {
    if f.len() < HEADER_LEN {
        Some(ProtocolError::TruncatedHeader(f.len() as usize))
    } else if f.len() > MAX_FRAME_LEN {
        Some(ProtocolError::FrameTooLarge(f.len() as usize))
    } else if f.subrange(0, 4) != halo_magic() {
        Some(ProtocolError::InvalidMagic)
    } else if read_be16(f, 4) != WIRE_VERSION {
        Some(ProtocolError::UnsupportedWireVersion(read_be16(f, 4)))
    } else if f[7] != 0 {
        Some(ProtocolError::ReservedFlags(f[7]))
    } else if read_be32(f, 8) > MAX_FRAME_LEN - HEADER_LEN {
        Some(ProtocolError::FrameTooLarge(saturating_usize(HEADER_LEN + read_be32(f, 8))))
    } else if read_be32(f, 8) != f.len() - HEADER_LEN {
        Some(
            ProtocolError::PayloadLength {
                declared: read_be32(f, 8) as usize,
                actual: (f.len() - HEADER_LEN) as usize,
            },
        )
    } else {
        payload_error(f[6], f.subrange(HEADER_LEN as int, f.len() as int))
    }
}


impl ClientHello {
    pub fn unsigned_payload(&self) -> (r: Vec<u8>)
        ensures
            r@ == client_hello_unsigned(*self),
    {
        let mut bytes: Vec<u8> = Vec::new();
        push_be16(&mut bytes, self.versions.min());
        push_be16(&mut bytes, self.versions.max());
        push_be64(&mut bytes, self.capabilities.0);
        push_all(&mut bytes, self.nonce.as_slice());
        push_all(&mut bytes, self.identity_key.as_slice());
        assert(bytes@ =~= client_hello_unsigned(*self));
        bytes
    }

    fn payload(&self) -> (r: Vec<u8>)
        ensures
            r@ == client_hello_unsigned(*self) + self.signature@,
    {
        let mut bytes = self.unsigned_payload();
        push_all(&mut bytes, self.signature.as_slice());
        bytes
    }

    fn decode(p: &[u8]) -> (r: Result<Self, ProtocolError>)
        ensures
            match r {
                Ok(m) => client_hello_unsigned(m) + m.signature@ == p@ && m.versions.wf(),
                Err(e) => payload_error(CLIENT_HELLO_KIND, p@) == Some(e),
            },
            r is Err <==> payload_error(CLIENT_HELLO_KIND, p@) is Some,
    {
        if p.len() != CLIENT_HELLO_LEN {
            return Err(ProtocolError::MessageLength { expected: CLIENT_HELLO_LEN, actual: p.len() });
        }
        let versions = match ProtocolRange::new(read_u16(p, 0), read_u16(p, 2)) {
            Ok(range) => range,
            Err(e) => return Err(e),
        };
        let m = ClientHello {
            versions,
            capabilities: Capabilities(read_u64(p, 4)),
            nonce: read_array::<NONCE_LEN>(p, 12),
            identity_key: read_array::<IDENTITY_KEY_LEN>(p, 44),
            signature: read_array::<SIGNATURE_LEN>(p, 109),
        };
        proof {
            lemma_be16(0, p@, 0);
            lemma_be16(0, p@, 2);
            lemma_be64(0, p@, 4);
            assert(p@ =~= p@.subrange(0, 2) + p@.subrange(2, 4) + p@.subrange(4, 12) + p@.subrange(
                12,
                44,
            ) + p@.subrange(44, 109) + p@.subrange(109, 173));
            assert(client_hello_unsigned(m) + m.signature@ =~= p@);
        }
        Ok(m)
    }
}

impl ServerHello {
    pub fn unsigned_payload(&self) -> (r: Vec<u8>)
        ensures
            r@ == server_hello_unsigned(*self),
    {
        let mut bytes: Vec<u8> = Vec::new();
        push_be16(&mut bytes, self.selected_version);
        push_be16(&mut bytes, self.versions.min());
        push_be16(&mut bytes, self.versions.max());
        push_be64(&mut bytes, self.capabilities.0);
        push_all(&mut bytes, self.nonce.as_slice());
        push_all(&mut bytes, self.identity_key.as_slice());
        push_all(&mut bytes, self.client_hello_hash.as_slice());
        assert(bytes@ =~= server_hello_unsigned(*self));
        bytes
    }

    fn payload(&self) -> (r: Vec<u8>)
        ensures
            r@ == server_hello_unsigned(*self) + self.signature@,
    {
        let mut bytes = self.unsigned_payload();
        push_all(&mut bytes, self.signature.as_slice());
        bytes
    }

    fn decode(p: &[u8]) -> (r: Result<Self, ProtocolError>)
        ensures
            match r {
                Ok(m) => server_hello_unsigned(m) + m.signature@ == p@ && m.versions.wf()
                    && m.selected_version != 0,
                Err(e) => payload_error(SERVER_HELLO_KIND, p@) == Some(e),
            },
            r is Err <==> payload_error(SERVER_HELLO_KIND, p@) is Some,
    {
        if p.len() != SERVER_HELLO_LEN {
            return Err(ProtocolError::MessageLength { expected: SERVER_HELLO_LEN, actual: p.len() });
        }
        let selected_version = read_u16(p, 0);
        if selected_version == 0 {
            return Err(ProtocolError::InvalidSelectedVersion);
        }
        let versions = match ProtocolRange::new(read_u16(p, 2), read_u16(p, 4)) {
            Ok(range) => range,
            Err(e) => return Err(e),
        };
        let m = ServerHello {
            selected_version,
            versions,
            capabilities: Capabilities(read_u64(p, 6)),
            nonce: read_array::<NONCE_LEN>(p, 14),
            identity_key: read_array::<IDENTITY_KEY_LEN>(p, 46),
            client_hello_hash: read_array::<TRANSCRIPT_HASH_LEN>(p, 111),
            signature: read_array::<SIGNATURE_LEN>(p, 143),
        };
        proof {
            lemma_be16(0, p@, 0);
            lemma_be16(0, p@, 2);
            lemma_be16(0, p@, 4);
            lemma_be64(0, p@, 6);
            assert(p@ =~= p@.subrange(0, 2) + p@.subrange(2, 4) + p@.subrange(4, 6) + p@.subrange(
                6,
                14,
            ) + p@.subrange(14, 46) + p@.subrange(46, 111) + p@.subrange(111, 143) + p@.subrange(
                143,
                207,
            ));
            assert(server_hello_unsigned(m) + m.signature@ =~= p@);
        }
        Ok(m)
    }
}

impl PairingDecision {
    pub fn unsigned_payload(&self) -> (r: Vec<u8>)
        ensures
            r@ == decision_unsigned(*self),
    {
        let mut bytes: Vec<u8> = Vec::new();
        push_all(&mut bytes, self.transcript_hash.as_slice());
        bytes.push(if self.accepted { 1u8 } else { 0u8 });
        assert(bytes@ =~= decision_unsigned(*self));
        bytes
    }

    fn payload(&self) -> (r: Vec<u8>)
        ensures
            r@ == decision_unsigned(*self) + self.signature@,
    {
        let mut bytes = self.unsigned_payload();
        push_all(&mut bytes, self.signature.as_slice());
        bytes
    }

    fn decode(p: &[u8]) -> (r: Result<Self, ProtocolError>)
        ensures
            match r {
                Ok(m) => decision_unsigned(m) + m.signature@ == p@,
                Err(e) => payload_error(PAIRING_DECISION_KIND, p@) == Some(e),
            },
            r is Err <==> payload_error(PAIRING_DECISION_KIND, p@) is Some,
    {
        if p.len() != PAIRING_DECISION_LEN {
            return Err(
                ProtocolError::MessageLength { expected: PAIRING_DECISION_LEN, actual: p.len() },
            );
        }
        let accepted = match p[TRANSCRIPT_HASH_LEN] {
            0 => false,
            1 => true,
            value => return Err(ProtocolError::InvalidBoolean(value)),
        };
        let m = PairingDecision {
            transcript_hash: read_array::<TRANSCRIPT_HASH_LEN>(p, 0),
            accepted,
            signature: read_array::<SIGNATURE_LEN>(p, 33),
        };
        proof {
            assert(p@ =~= p@.subrange(0, 32) + seq![p@[32]] + p@.subrange(33, 97));
            assert(decision_unsigned(m) + m.signature@ =~= p@);
        }
        Ok(m)
    }
}

impl PairingCommit {
    pub fn unsigned_payload(&self) -> (r: Vec<u8>)
        ensures
            r@ == commit_unsigned(*self),
    {
        let mut bytes: Vec<u8> = Vec::new();
        push_all(&mut bytes, self.transcript_hash.as_slice());
        bytes
    }

    fn payload(&self) -> (r: Vec<u8>)
        ensures
            r@ == commit_unsigned(*self) + self.signature@,
    {
        let mut bytes = self.unsigned_payload();
        push_all(&mut bytes, self.signature.as_slice());
        bytes
    }

    fn decode(p: &[u8]) -> (r: Result<Self, ProtocolError>)
        ensures
            match r {
                Ok(m) => commit_unsigned(m) + m.signature@ == p@,
                Err(e) => payload_error(PAIRING_COMMIT_KIND, p@) == Some(e),
            },
            r is Err <==> payload_error(PAIRING_COMMIT_KIND, p@) is Some,
    {
        if p.len() != PAIRING_COMMIT_LEN {
            return Err(ProtocolError::MessageLength { expected: PAIRING_COMMIT_LEN, actual: p.len() });
        }
        let m = PairingCommit {
            transcript_hash: read_array::<TRANSCRIPT_HASH_LEN>(p, 0),
            signature: read_array::<SIGNATURE_LEN>(p, 32),
        };
        assert(commit_unsigned(m) + m.signature@ =~= p@);
        Ok(m)
    }
}

/// Appends the 12-byte control header for a payload of `payload_len` bytes.
pub fn push_control_header(out: &mut Vec<u8>, kind: u8, payload_len: u32)
    ensures
        final(out)@ == old(out)@ + halo_magic() + be16(WIRE_VERSION) + seq![kind, 0u8] + be32(
            payload_len,
        ),
{
    out.push(0x48u8);
    out.push(0x41u8);
    out.push(0x4cu8);
    out.push(0x4fu8);
    push_be16(out, WIRE_VERSION);
    out.push(kind);
    out.push(0u8);
    push_be32(out, payload_len);
    assert(final(out)@ =~= old(out)@ + halo_magic() + be16(WIRE_VERSION) + seq![kind, 0u8] + be32(
        payload_len,
    ));
}

/// Whether the first four bytes are the `HALO` magic.
pub fn has_halo_magic(frame: &[u8]) -> (r: bool)
    requires
        frame@.len() >= 4,
    ensures
        r == (frame@.subrange(0, 4) == halo_magic()),
{
    let r = frame[0] == 0x48u8 && frame[1] == 0x41u8 && frame[2] == 0x4cu8 && frame[3] == 0x4fu8;
    proof {
        if r {
            assert(frame@.subrange(0, 4) =~= halo_magic());
        } else {
            if frame@.subrange(0, 4) == halo_magic() {
                assert(frame@[0] == frame@.subrange(0, 4)[0]);
                assert(frame@[1] == frame@.subrange(0, 4)[1]);
                assert(frame@[2] == frame@.subrange(0, 4)[2]);
                assert(frame@[3] == frame@.subrange(0, 4)[3]);
            }
        }
    }
    r
}

impl PairingMessage {
    pub fn encode(&self) -> (r: Vec<u8>)
        ensures
            r@ == encoded_message(*self),
    {
        let (kind, payload) = match self {
            PairingMessage::ClientHello(message) => (CLIENT_HELLO_KIND, message.payload()),
            PairingMessage::ServerHello(message) => (SERVER_HELLO_KIND, message.payload()),
            PairingMessage::Decision(message) => (PAIRING_DECISION_KIND, message.payload()),
            PairingMessage::Commit(message) => (PAIRING_COMMIT_KIND, message.payload()),
        };
        let mut frame: Vec<u8> = Vec::new();
        push_control_header(&mut frame, kind, payload.len() as u32);
        push_all(&mut frame, payload.as_slice());
        frame
    }

    /// Decodes one complete frame. It succeeds exactly when no check fails,
    /// and then the frame is the canonical encoding of the result.
    pub fn decode(frame: &[u8]) -> (r: Result<Self, ProtocolError>)
        ensures
            match r {
                Ok(m) => frame_error(frame@) is None && encoded_message(m) == frame@
                    && message_wf(m),
                Err(e) => frame_error(frame@) == Some(e),
            },
            r is Err <==> frame_error(frame@) is Some,
    {
        if frame.len() < HEADER_LEN {
            return Err(ProtocolError::TruncatedHeader(frame.len()));
        }
        if frame.len() > MAX_FRAME_LEN {
            return Err(ProtocolError::FrameTooLarge(frame.len()));
        }
        if !has_halo_magic(frame) {
            return Err(ProtocolError::InvalidMagic);
        }
        let version = read_u16(frame, 4);
        if version != WIRE_VERSION {
            return Err(ProtocolError::UnsupportedWireVersion(version));
        }
        let kind = frame[6];
        if frame[7] != 0 {
            return Err(ProtocolError::ReservedFlags(frame[7]));
        }
        let declared = read_u32(frame, 8) as usize;
        if declared > MAX_FRAME_LEN - HEADER_LEN {
            return Err(ProtocolError::FrameTooLarge(HEADER_LEN.saturating_add(declared)));
        }
        let actual = frame.len() - HEADER_LEN;
        if declared != actual {
            return Err(ProtocolError::PayloadLength { declared, actual });
        }
        let payload = &frame[HEADER_LEN..frame.len()];
        proof {
            lemma_be16(0, frame@, 4);
            lemma_be32(0, frame@, 8);
            assert(frame@ =~= frame@.subrange(0, 4) + frame@.subrange(4, 6) + seq![
                frame@[6],
                frame@[7],
            ] + frame@.subrange(8, 12) + payload@);
        }
        if kind == CLIENT_HELLO_KIND {
            match ClientHello::decode(payload) {
                Ok(m) => Ok(PairingMessage::ClientHello(m)),
                Err(e) => Err(e),
            }
        } else if kind == SERVER_HELLO_KIND {
            match ServerHello::decode(payload) {
                Ok(m) => Ok(PairingMessage::ServerHello(m)),
                Err(e) => Err(e),
            }
        } else if kind == PAIRING_DECISION_KIND {
            match PairingDecision::decode(payload) {
                Ok(m) => Ok(PairingMessage::Decision(m)),
                Err(e) => Err(e),
            }
        } else if kind == PAIRING_COMMIT_KIND {
            match PairingCommit::decode(payload) {
                Ok(m) => Ok(PairingMessage::Commit(m)),
                Err(e) => Err(e),
            }
        } else {
            Err(ProtocolError::UnknownMessageKind(kind))
        }
    }
}


pub proof fn lemma_frame_header(kind: u8, p: Seq<u8>)
    requires
        p.len() <= MAX_FRAME_LEN - HEADER_LEN,
    ensures
        ({
            let f = control_frame(kind, p);
            &&& f.len() == HEADER_LEN + p.len()
            &&& f.subrange(0, 4) == halo_magic()
            &&& read_be16(f, 4) == WIRE_VERSION
            &&& f[6] == kind
            &&& f[7] == 0
            &&& read_be32(f, 8) == p.len()
            &&& f.subrange(HEADER_LEN as int, f.len() as int) == p
        }),
{
    let f = control_frame(kind, p);
    assert(f.subrange(0, 4) =~= halo_magic());
    assert(f.subrange(4, 6) =~= be16(WIRE_VERSION));
    lemma_be16(WIRE_VERSION, f, 4);
    assert(f.subrange(8, 12) =~= be32(p.len() as u32));
    lemma_be32(p.len() as u32, f, 8);
    assert(f.subrange(HEADER_LEN as int, f.len() as int) =~= p);
}

/// A well-formed pairing message passes every decoder check on its own
/// encoding; with `lemma_pairing_encoding_injective` and the contract of
/// `PairingMessage::decode`, decoding an encoded message gives it back.
pub proof fn lemma_pairing_round_trip(m: PairingMessage)
    requires
        message_wf(m),
    ensures
        frame_error(encoded_message(m)) is None,
{
    let p = message_payload(m);
    match m {
        PairingMessage::ClientHello(c) => {
            assert(p.len() == CLIENT_HELLO_LEN);
            assert(p.subrange(0, 2) =~= be16(c.versions.lo()));
            assert(p.subrange(2, 4) =~= be16(c.versions.hi()));
            lemma_be16(c.versions.lo(), p, 0);
            lemma_be16(c.versions.hi(), p, 2);
        },
        PairingMessage::ServerHello(sh) => {
            assert(p.len() == SERVER_HELLO_LEN);
            assert(p.subrange(0, 2) =~= be16(sh.selected_version));
            assert(p.subrange(2, 4) =~= be16(sh.versions.lo()));
            assert(p.subrange(4, 6) =~= be16(sh.versions.hi()));
            lemma_be16(sh.selected_version, p, 0);
            lemma_be16(sh.versions.lo(), p, 2);
            lemma_be16(sh.versions.hi(), p, 4);
        },
        PairingMessage::Decision(d) => {
            assert(p.len() == PAIRING_DECISION_LEN);
            assert(p[32] == (if d.accepted { 1u8 } else { 0u8 }));
        },
        PairingMessage::Commit(_) => {
            assert(p.len() == PAIRING_COMMIT_LEN);
        },
    }
    lemma_frame_header(message_kind(m), p);
}

/// Every strict prefix of an encoded pairing message is refused.
pub proof fn lemma_pairing_prefix_refused(m: PairingMessage, n: int)
    requires
        message_wf(m),
        0 <= n < encoded_message(m).len(),
    ensures
        frame_error(encoded_message(m).subrange(0, n)) is Some,
{
    lemma_pairing_round_trip(m);
    let f = encoded_message(m);
    let g = f.subrange(0, n);
    if n >= HEADER_LEN {
        assert(g.subrange(0, 4) =~= f.subrange(0, 4));
        assert(read_be16(g, 4) == read_be16(f, 4));
        assert(read_be32(g, 8) == read_be32(f, 8));
    }
}

/// An encoded pairing message whose kind byte names no message is refused
/// with that kind.
pub proof fn lemma_pairing_unknown_kind_refused(m: PairingMessage, kind: u8)
    requires
        message_wf(m),
        kind != CLIENT_HELLO_KIND,
        kind != SERVER_HELLO_KIND,
        kind != PAIRING_DECISION_KIND,
        kind != PAIRING_COMMIT_KIND,
    ensures
        frame_error(encoded_message(m).update(6, kind)) == Some(
            ProtocolError::UnknownMessageKind(kind),
        ),
{
    lemma_pairing_round_trip(m);
    let f = encoded_message(m);
    let g = f.update(6, kind);
    assert(g.subrange(0, 4) =~= f.subrange(0, 4));
    assert(read_be16(g, 4) == read_be16(f, 4));
    assert(read_be32(g, 8) == read_be32(f, 8));
    assert(g[7] == f[7]);
}

/// An encoded pairing message with any flag set is refused with those flags.
pub proof fn lemma_pairing_flags_refused(m: PairingMessage, flags: u8)
    requires
        message_wf(m),
        flags != 0,
    ensures
        frame_error(encoded_message(m).update(7, flags)) == Some(ProtocolError::ReservedFlags(flags)),
{
    lemma_pairing_round_trip(m);
    let f = encoded_message(m);
    let g = f.update(7, flags);
    assert(g.subrange(0, 4) =~= f.subrange(0, 4));
    assert(read_be16(g, 4) == read_be16(f, 4));
}

/// Distinct pairing messages have distinct encodings.
#[verifier::spinoff_prover]
#[verifier::rlimit(40)]
pub proof fn lemma_pairing_encoding_injective(a: PairingMessage, b: PairingMessage)
    requires
        encoded_message(a) == encoded_message(b),
    ensures
        a == b,
{
    broadcast use vstd::array::group_array_axioms;

    let pa = message_payload(a);
    let pb = message_payload(b);
    let f = encoded_message(a);
    assert(f[6] == message_kind(a));
    assert(encoded_message(b)[6] == message_kind(b));
    assert(pa =~= f.subrange(HEADER_LEN as int, f.len() as int));
    assert(pb =~= f.subrange(HEADER_LEN as int, f.len() as int));
    match (a, b) {
        (PairingMessage::ClientHello(x), PairingMessage::ClientHello(y)) => {
            assert(pa.subrange(0, 2) =~= be16(x.versions.lo()));
            assert(pb.subrange(0, 2) =~= be16(y.versions.lo()));
            assert(pa.subrange(2, 4) =~= be16(x.versions.hi()));
            assert(pb.subrange(2, 4) =~= be16(y.versions.hi()));
            assert(pa.subrange(4, 12) =~= be64(x.capabilities.0));
            assert(pb.subrange(4, 12) =~= be64(y.capabilities.0));
            lemma_be16(x.versions.lo(), pa, 0);
            lemma_be16(y.versions.lo(), pa, 0);
            lemma_be16(x.versions.hi(), pa, 2);
            lemma_be16(y.versions.hi(), pa, 2);
            lemma_be64(x.capabilities.0, pa, 4);
            lemma_be64(y.capabilities.0, pa, 4);
            assert(x.nonce@ =~= pa.subrange(12, 44));
            assert(y.nonce@ =~= pa.subrange(12, 44));
            assert(x.identity_key@ =~= pa.subrange(44, 109));
            assert(y.identity_key@ =~= pa.subrange(44, 109));
            assert(x.signature@ =~= pa.subrange(109, 173));
            assert(y.signature@ =~= pa.subrange(109, 173));
            assert(x.nonce =~= y.nonce);
            assert(x.identity_key =~= y.identity_key);
            assert(x.signature =~= y.signature);
            assert(x.versions == y.versions);
        },
        (PairingMessage::ServerHello(x), PairingMessage::ServerHello(y)) => {
            assert(pa.subrange(0, 2) =~= be16(x.selected_version));
            assert(pb.subrange(0, 2) =~= be16(y.selected_version));
            assert(pa.subrange(2, 4) =~= be16(x.versions.lo()));
            assert(pb.subrange(2, 4) =~= be16(y.versions.lo()));
            assert(pa.subrange(4, 6) =~= be16(x.versions.hi()));
            assert(pb.subrange(4, 6) =~= be16(y.versions.hi()));
            assert(pa.subrange(6, 14) =~= be64(x.capabilities.0));
            assert(pb.subrange(6, 14) =~= be64(y.capabilities.0));
            lemma_be16(x.selected_version, pa, 0);
            lemma_be16(y.selected_version, pa, 0);
            lemma_be16(x.versions.lo(), pa, 2);
            lemma_be16(y.versions.lo(), pa, 2);
            lemma_be16(x.versions.hi(), pa, 4);
            lemma_be16(y.versions.hi(), pa, 4);
            lemma_be64(x.capabilities.0, pa, 6);
            lemma_be64(y.capabilities.0, pa, 6);
            assert(x.nonce@ =~= pa.subrange(14, 46));
            assert(y.nonce@ =~= pa.subrange(14, 46));
            assert(x.identity_key@ =~= pa.subrange(46, 111));
            assert(y.identity_key@ =~= pa.subrange(46, 111));
            assert(x.client_hello_hash@ =~= pa.subrange(111, 143));
            assert(y.client_hello_hash@ =~= pa.subrange(111, 143));
            assert(x.signature@ =~= pa.subrange(143, 207));
            assert(y.signature@ =~= pa.subrange(143, 207));
            assert(x.nonce =~= y.nonce);
            assert(x.identity_key =~= y.identity_key);
            assert(x.client_hello_hash =~= y.client_hello_hash);
            assert(x.signature =~= y.signature);
            assert(x.versions == y.versions);
        },
        (PairingMessage::Decision(x), PairingMessage::Decision(y)) => {
            assert(x.transcript_hash@ =~= pa.subrange(0, 32));
            assert(y.transcript_hash@ =~= pa.subrange(0, 32));
            assert(x.signature@ =~= pa.subrange(33, 97));
            assert(y.signature@ =~= pa.subrange(33, 97));
            assert(pa[32] == (if x.accepted { 1u8 } else { 0u8 }));
            assert(pb[32] == (if y.accepted { 1u8 } else { 0u8 }));
            assert(x.transcript_hash =~= y.transcript_hash);
            assert(x.signature =~= y.signature);
        },
        (PairingMessage::Commit(x), PairingMessage::Commit(y)) => {
            assert(x.transcript_hash@ =~= pa.subrange(0, 32));
            assert(y.transcript_hash@ =~= pa.subrange(0, 32));
            assert(x.signature@ =~= pa.subrange(32, 96));
            assert(y.signature@ =~= pa.subrange(32, 96));
            assert(x.transcript_hash =~= y.transcript_hash);
            assert(x.signature =~= y.signature);
        },
        _ => {},
    }
}

} // verus!

//! Trust records: peer identifiers, the fixed-size records that remember a
//! trusted key and the address it was last seen at, and the file names the
//! records are kept under. Reading and writing the files stays with the
//! caller.

use vstd::prelude::*;

use crate::be_bytes::{be16, bytes_equal, lemma_be16, push_all, push_be16, read_array, read_be16, read_u16};
use crate::crypto::digest::{digest32, sha256_digest};
use crate::crypto::identity::{public_key_error, IdentityPublicKey};
use crate::discovery::model::hex_bytes;
use crate::net::IpAddr;
use crate::protocol::pairing::IDENTITY_KEY_LEN;
use crate::text::{ascii_chars, ascii_to_string};

verus! {

/// Magic, key and protocol version.
pub const TRUST_RECORD_LEN: usize = 71;

/// Magic, address family, sixteen address bytes, key and protocol version.
pub const REMEMBERED_ENDPOINT_RECORD_LEN: usize = 88;

pub const MAX_TRUST_DIRECTORY_ENTRIES: usize = 1024;

#[derive(Clone, Copy, Debug, PartialEq, Eq, Structural)]
pub enum StoreError {
    Unavailable,
    Locked,
    Corrupt,
    Persistence,
}

/// The first 16 bytes of the SHA-256 digest of a peer's public key.
#[derive(Clone, Copy, Debug, PartialEq, Eq, Hash, PartialOrd, Ord)]
pub struct PeerId(pub [u8; 16]);

impl PeerId {
    pub fn from_bytes(bytes: [u8; 16]) -> (r: Self)
        ensures
            r.0 == bytes,
    {
        PeerId(bytes)
    }

    pub fn as_bytes(&self) -> (r: &[u8; 16])
        ensures
            *r == self.0,
    {
        &self.0
    }
}

pub open spec fn spec_peer_id(key: Seq<u8>) -> Seq<u8> {
    digest32(key).subrange(0, 16)
}

pub fn derive_peer_id(key: &IdentityPublicKey) -> (r: PeerId)
    ensures
        r.0@ == spec_peer_id(key@),
{
    let digest = sha256_digest(key.as_bytes().as_slice());
    PeerId(read_array::<16>(digest.as_slice(), 0))
}

/// A peer whose key a completed pairing committed to.
#[derive(Clone, Copy, Debug, PartialEq, Eq)]
pub struct TrustedPeer {
    pub identity_key: IdentityPublicKey,
    pub protocol_version: u16,
}

impl TrustedPeer {
    pub fn peer_id(&self) -> (r: PeerId)
        ensures
            r.0@ == spec_peer_id(self.identity_key@),
    {
        derive_peer_id(&self.identity_key)
    }
}

/// A trusted peer and the local-network address it was authenticated at.
#[derive(Clone, Copy, Debug, PartialEq, Eq)]
pub struct RememberedEndpoint {
    pub address: IpAddr,
    pub peer: TrustedPeer,
}

/// Calls `std::path::Path::is_absolute`. What counts as absolute depends on
/// the platform (a leading `/` on Unix, a drive or UNC prefix with a root
/// on Windows); on every platform an absolute path holds a `/`, `\` or `:`.
#[verifier::external_body]
pub(crate) fn path_is_absolute(path: &str) -> (r: bool)
    ensures
        r ==> exists|i: int|
            0 <= i < path@.len() && (#[trigger] path@[i] == '/' || path@[i] == '\\' || path@[i]
                == ':'),
{
    std::path::Path::new(path).is_absolute()
}

/// Where trust records live: an app-private directory given by absolute
/// path.
#[derive(Clone, Debug, PartialEq, Eq)]
pub struct FileTrustStore {
    root: String,
}

impl FileTrustStore {
    pub closed spec fn spec_root(&self) -> Seq<char> {
        self.root@
    }

    /// Accepts only an absolute directory path; a relative one would
    /// depend on the process's working directory.
    pub fn new(root: &str) -> (r: Result<Self, StoreError>)
        ensures
            r matches Ok(store) ==> store.spec_root() == root@ && exists|i: int|
                0 <= i < root@.len() && (#[trigger] root@[i] == '/' || root@[i] == '\\' || root@[i]
                    == ':'),
            r matches Err(e) ==> e == StoreError::Persistence,
    {
        if !path_is_absolute(root) {
            return Err(StoreError::Persistence);
        }
        Ok(FileTrustStore { root: root.to_owned() })
    }

    pub fn root(&self) -> (r: &str)
        ensures
            r@ == self.spec_root(),
    {
        self.root.as_str()
    }
}

/// `HTR1`, the magic of a trust record.
pub open spec fn trust_magic() -> Seq<u8> {
    seq![0x48u8, 0x54u8, 0x52u8, 0x31u8]
}

/// `HEP1`, the magic of an address binding.
pub open spec fn endpoint_magic() -> Seq<u8> {
    seq![0x48u8, 0x45u8, 0x50u8, 0x31u8]
}

/// `HRI1`, the magic of a remembered endpoint.
pub open spec fn remembered_magic() -> Seq<u8> {
    seq![0x48u8, 0x52u8, 0x49u8, 0x31u8]
}

/// The kind of a fixed-size peer record, by its magic.
#[derive(Clone, Copy, Debug, PartialEq, Eq, Structural)]
pub enum RecordKind {
    /// A trusted peer, named by its peer id.
    Trust,
    /// The peer last authenticated at an address.
    Endpoint,
}

pub open spec fn record_magic(kind: RecordKind) -> Seq<u8> {
    match kind {
        RecordKind::Trust => trust_magic(),
        RecordKind::Endpoint => endpoint_magic(),
    }
}

fn magic_of(kind: RecordKind) -> (r: [u8; 4])
    ensures
        r@ == record_magic(kind),
{
    let r: [u8; 4] = match kind {
        RecordKind::Trust => [0x48u8, 0x54u8, 0x52u8, 0x31u8],
        RecordKind::Endpoint => [0x48u8, 0x45u8, 0x50u8, 0x31u8],
    };
    assert(r@ =~= record_magic(kind));
    r
}

/// The bytes of a peer record: magic, key, protocol version.
pub open spec fn spec_peer_record(kind: RecordKind, peer: TrustedPeer) -> Seq<u8> {
    record_magic(kind) + peer.identity_key@ + be16(peer.protocol_version)
}

pub fn encode_peer_record(kind: RecordKind, peer: &TrustedPeer) -> (r: Vec<u8>)
    ensures
        r@ == spec_peer_record(kind, *peer),
{
    let magic = magic_of(kind);
    let mut bytes: Vec<u8> = Vec::new();
    push_all(&mut bytes, magic.as_slice());
    push_all(&mut bytes, peer.identity_key.as_bytes().as_slice());
    push_be16(&mut bytes, peer.protocol_version);
    bytes
}

/// Why stored bytes are not a usable peer record. A record for one peer id
/// must hold a key with that id.
pub open spec fn peer_record_error(b: Seq<u8>, kind: RecordKind, expected: Option<Seq<u8>>) -> Option<
    StoreError,
> {
    if b.len() != TRUST_RECORD_LEN || b.subrange(0, 4) != record_magic(kind) {
        Some(StoreError::Corrupt)
    } else if public_key_error(b.subrange(4, 69)) is Some {
        Some(StoreError::Corrupt)
    } else if expected matches Some(id) && spec_peer_id(b.subrange(4, 69)) != id {
        Some(StoreError::Corrupt)
    } else {
        None
    }
}

/// Reads a peer record, failing closed on any malformed byte.
pub fn decode_peer_record(bytes: &[u8], kind: RecordKind, expected_peer_id: Option<PeerId>) -> (r:
    Result<TrustedPeer, StoreError>)
    ensures
        r is Err <==> peer_record_error(
            bytes@,
            kind,
            match expected_peer_id {
                Some(id) => Some(id.0@),
                None => None,
            },
        ) is Some,
        r matches Err(e) ==> e == StoreError::Corrupt,
        r matches Ok(p) ==> p.identity_key@ == bytes@.subrange(4, 69) && p.protocol_version
            == read_be16(bytes@, 69),
{
    let magic = magic_of(kind);
    if bytes.len() != TRUST_RECORD_LEN || !bytes_equal(&bytes[0..4], magic.as_slice()) {
        return Err(StoreError::Corrupt);
    }
    let key = read_array::<IDENTITY_KEY_LEN>(bytes, 4);
    let identity_key = match IdentityPublicKey::from_bytes(key) {
        Ok(k) => k,
        Err(_) => return Err(StoreError::Corrupt),
    };
    let peer = TrustedPeer { identity_key, protocol_version: read_u16(bytes, 69) };
    match expected_peer_id {
        Some(expected) => {
            let id = peer.peer_id();
            if !bytes_equal(id.0.as_slice(), expected.0.as_slice()) {
                return Err(StoreError::Corrupt);
            }
        },
        None => {},
    }
    Ok(peer)
}

/// Reading back a record of a peer with a canonical key gives the peer.
pub proof fn lemma_peer_record_round_trip(kind: RecordKind, peer: TrustedPeer)
    requires
        public_key_error(peer.identity_key@) is None,
    ensures
        peer_record_error(
            spec_peer_record(kind, peer),
            kind,
            Some(spec_peer_id(peer.identity_key@)),
        ) is None,
        spec_peer_record(kind, peer).subrange(4, 69) == peer.identity_key@,
        read_be16(spec_peer_record(kind, peer), 69) == peer.protocol_version,
{
    let b = spec_peer_record(kind, peer);
    assert(b.subrange(0, 4) =~= record_magic(kind));
    assert(b.subrange(4, 69) =~= peer.identity_key@);
    assert(b.subrange(69, 71) =~= be16(peer.protocol_version));
    lemma_be16(peer.protocol_version, b, 69);
}

/// The sixteen address bytes of a remembered endpoint: an IPv4 address is
/// twelve zero bytes and its four octets.
pub open spec fn address_bytes(address: IpAddr) -> Seq<u8> {
    match address {
        IpAddr::V4(o) => Seq::new(12, |i: int| 0u8) + o@,
        IpAddr::V6(o) => o@,
    }
}

pub open spec fn address_family(address: IpAddr) -> u8 {
    match address {
        IpAddr::V4(_) => 4,
        IpAddr::V6(_) => 6,
    }
}

pub open spec fn spec_remembered_record(endpoint: RememberedEndpoint) -> Seq<u8> {
    remembered_magic() + seq![address_family(endpoint.address)] + address_bytes(endpoint.address)
        + endpoint.peer.identity_key@ + be16(endpoint.peer.protocol_version)
}

pub fn encode_remembered_endpoint(endpoint: &RememberedEndpoint) -> (r: Vec<u8>)
    ensures
        r@ == spec_remembered_record(*endpoint),
{
    let magic: [u8; 4] = [0x48u8, 0x52u8, 0x49u8, 0x31u8];
    assert(magic@ =~= remembered_magic());
    let mut bytes: Vec<u8> = Vec::new();
    push_all(&mut bytes, magic.as_slice());
    match &endpoint.address {
        IpAddr::V4(o) => {
            bytes.push(4u8);
            let zeros: [u8; 12] = [0u8; 12];
            assert(zeros@ =~= Seq::new(12, |i: int| 0u8));
            push_all(&mut bytes, zeros.as_slice());
            push_all(&mut bytes, o.as_slice());
        },
        IpAddr::V6(o) => {
            bytes.push(6u8);
            push_all(&mut bytes, o.as_slice());
        },
    }
    push_all(&mut bytes, endpoint.peer.identity_key.as_bytes().as_slice());
    push_be16(&mut bytes, endpoint.peer.protocol_version);
    assert(bytes@ =~= spec_remembered_record(*endpoint));
    bytes
}

/// Why stored bytes are not a remembered endpoint.
pub open spec fn remembered_error(b: Seq<u8>) -> Option<StoreError> {
    if b.len() != REMEMBERED_ENDPOINT_RECORD_LEN || b.subrange(0, 4) != remembered_magic() {
        Some(StoreError::Corrupt)
    } else if !((b[4] == 4 && b.subrange(5, 17) == Seq::new(12, |i: int| 0u8)) || b[4] == 6) {
        Some(StoreError::Corrupt)
    } else if public_key_error(b.subrange(21, 86)) is Some {
        Some(StoreError::Corrupt)
    } else {
        None
    }
}

pub fn decode_remembered_endpoint(bytes: &[u8]) -> (r: Result<RememberedEndpoint, StoreError>)
    ensures
        r is Err <==> remembered_error(bytes@) is Some,
        r matches Err(e) ==> e == StoreError::Corrupt,
        r matches Ok(endpoint) ==> spec_remembered_record(endpoint) == bytes@,
{
    let magic: [u8; 4] = [0x48u8, 0x52u8, 0x49u8, 0x31u8];
    assert(magic@ =~= remembered_magic());
    if bytes.len() != REMEMBERED_ENDPOINT_RECORD_LEN || !bytes_equal(&bytes[0..4], magic.as_slice()) {
        return Err(StoreError::Corrupt);
    }
    let zeros: [u8; 12] = [0u8; 12];
    assert(zeros@ =~= Seq::new(12, |i: int| 0u8));
    let address = if bytes[4] == 4 && bytes_equal(&bytes[5..17], zeros.as_slice()) {
        IpAddr::V4(read_array::<4>(bytes, 17))
    } else if bytes[4] == 6 {
        IpAddr::V6(read_array::<16>(bytes, 5))
    } else {
        return Err(StoreError::Corrupt);
    };
    let key = read_array::<IDENTITY_KEY_LEN>(bytes, 21);
    let identity_key = match IdentityPublicKey::from_bytes(key) {
        Ok(k) => k,
        Err(_) => return Err(StoreError::Corrupt),
    };
    let endpoint = RememberedEndpoint {
        address,
        peer: TrustedPeer { identity_key, protocol_version: read_u16(bytes, 86) },
    };
    proof {
        let b = bytes@;
        lemma_be16(0, b, 86);
        assert(b =~= b.subrange(0, 4) + b.subrange(4, 5) + b.subrange(5, 21) + b.subrange(21, 86)
            + b.subrange(86, 88));
        if b[4] == 4 {
            assert(b.subrange(5, 21) =~= b.subrange(5, 17) + b.subrange(17, 21));
        }
        assert(spec_remembered_record(endpoint) =~= b);
    }
    Ok(endpoint)
}

/// `0123456789abcdef` of a peer id: the name of its trust record.
pub open spec fn peer_file_stem(id: PeerId) -> Seq<char> {
    ascii_chars(hex_bytes(id.0@))
}

/// Lower-case hexadecimal of bytes, as text.
pub fn hex_string(bytes: &[u8]) -> (r: String)
    ensures
        r@ == ascii_chars(hex_bytes(bytes@)),
{
    let id_bytes = bytes;
    let mut out: Vec<u8> = Vec::new();
    let mut i: usize = 0;
    while i < id_bytes.len()
        invariant
            i <= id_bytes@.len(),
            out@ == hex_bytes(id_bytes@.subrange(0, i as int)),
        decreases id_bytes@.len() - i,
    {
        let b = id_bytes[i];
        out.push(hex_nibble(b / 16));
        out.push(hex_nibble(b % 16));
        proof {
            assert(id_bytes@.subrange(0, i + 1) =~= id_bytes@.subrange(0, i as int).push(b));
            crate::discovery::model::lemma_hex_bytes_push(id_bytes@.subrange(0, i as int), b);
            assert(out@ =~= hex_bytes(id_bytes@.subrange(0, i + 1)));
        }
        i = i + 1;
    }
    proof {
        assert(id_bytes@.subrange(0, i as int) =~= id_bytes@);
        crate::discovery::model::lemma_hex_bytes_ascii(id_bytes@);
    }
    ascii_to_string(out.as_slice())
}

fn hex_nibble(n: u8) -> (r: u8)
    requires
        n < 16,
    ensures
        r == crate::discovery::model::hex_digit(n),
{
    if n < 10 {
        n + 48
    } else {
        n + 87
    }
}

/// `Halo endpoint binding v1`
pub open spec fn endpoint_label() -> Seq<u8> {
    seq![
        72u8, 97u8, 108u8, 111u8, 32u8, 101u8, 110u8, 100u8, 112u8, 111u8, 105u8, 110u8, 116u8, 32u8,
        98u8, 105u8, 110u8, 100u8, 105u8, 110u8, 103u8, 32u8, 118u8, 49u8,
    ]
}

/// The digest that names an address's binding files; the port is left out
/// because listeners pick a new one after a restart.
pub open spec fn spec_endpoint_digest(address: IpAddr) -> Seq<u8> {
    digest32(
        endpoint_label() + seq![address_family(address)] + match address {
            IpAddr::V4(o) => o@,
            IpAddr::V6(o) => o@,
        },
    )
}

/// The file stem of an address's binding records.
pub fn endpoint_file_stem(address: &IpAddr) -> (r: String)
    ensures
        r@ == ascii_chars(hex_bytes(spec_endpoint_digest(*address))),
{
    let label: [u8; 24] = [
        72u8, 97u8, 108u8, 111u8, 32u8, 101u8, 110u8, 100u8, 112u8, 111u8, 105u8, 110u8, 116u8, 32u8,
        98u8, 105u8, 110u8, 100u8, 105u8, 110u8, 103u8, 32u8, 118u8, 49u8,
    ];
    assert(label@ =~= endpoint_label());
    let mut input: Vec<u8> = Vec::new();
    push_all(&mut input, label.as_slice());
    match address {
        IpAddr::V4(o) => {
            input.push(4u8);
            push_all(&mut input, o.as_slice());
        },
        IpAddr::V6(o) => {
            input.push(6u8);
            push_all(&mut input, o.as_slice());
        },
    }
    let digest = sha256_digest(input.as_slice());
    proof {
        assert(input@ =~= endpoint_label() + seq![address_family(*address)] + match *address {
            IpAddr::V4(o) => o@,
            IpAddr::V6(o) => o@,
        });
    }
    hex_string(digest.as_slice())
}

/// The file stem of a peer's trust record.
pub fn peer_file_stem_of(id: &PeerId) -> (r: String)
    ensures
        r@ == peer_file_stem(*id),
{
    hex_string(id.0.as_slice())
}

} // verus!

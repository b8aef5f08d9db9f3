//! Pairing authentication: every pairing message is signed over a
//! domain-separated, TLS-bound input; both sides derive the same transcript
//! hash and the six-digit code the users compare.

use vstd::prelude::*;

use hkdf::Hkdf;
use sha2::Sha256;

use crate::be_bytes::{be16, be32, be64, bytes_equal, push_all, push_be32, read_be32, read_u32};
use crate::crypto::digest::{digest32, sha256_digest};
use crate::crypto::identity::{
    ecdsa_sign, p256_public_point, public_key_error, verify_error, DeviceIdentity, IdentityError,
    IdentityPublicKey, IdentitySignature,
};
use crate::crypto::random::random_array;
use crate::protocol::pairing::{
    client_hello_unsigned, commit_unsigned, decision_unsigned, server_hello_unsigned, Capabilities,
    ClientHello, PairingCommit, PairingDecision, ProtocolRange, ServerHello, NONCE_LEN,
    TRANSCRIPT_HASH_LEN,
};

verus! {

/// Six decimal digits.
pub const CODE_RANGE: u32 = 1_000_000;

/// The largest multiple of one million not above 2^32; 32-bit values at or
/// above it are skipped so every code is equally likely.
pub const CODE_LIMIT: u64 = 4_294_000_000;

/// Bytes of key material the code is drawn from: sixteen 32-bit tries.
pub const CODE_OKM_LEN: usize = 64;

/// The TLS exporter value that binds pairing to one connection.
#[derive(Clone, Copy, Debug, PartialEq, Eq)]
pub struct TlsChannelBinding(pub [u8; 32]);

impl TlsChannelBinding {
    pub fn new(bytes: [u8; 32]) -> (r: Self)
        ensures
            r.0 == bytes,
    {
        TlsChannelBinding(bytes)
    }

    pub fn as_bytes(&self) -> (r: &[u8; 32])
        ensures
            *r == self.0,
    {
        &self.0
    }
}

/// The short code both users compare, below one million.
#[derive(Clone, Copy, Debug, PartialEq, Eq, Structural)]
pub struct PairingCode(u32);

impl PairingCode {
    pub closed spec fn spec_value(self) -> u32 {
        self.0
    }

    pub fn value(self) -> (r: u32)
        ensures
            r == self.spec_value(),
    {
        self.0
    }

    /// The code as the six digits users read, with leading zeros.
    pub fn digits(self) -> (r: [u8; 6])
        requires
            self.spec_value() < CODE_RANGE,
        ensures
            forall|i: int|
                0 <= i < 6 ==> #[trigger] r@[i] == 48 + ((self.spec_value() as int) / (pow10(5 - i) as int)) % 10,
    {
        let v = self.0;
        let r: [u8; 6] = [
            (48 + (v / 100000) % 10) as u8,
            (48 + (v / 10000) % 10) as u8,
            (48 + (v / 1000) % 10) as u8,
            (48 + (v / 100) % 10) as u8,
            (48 + (v / 10) % 10) as u8,
            (48 + v % 10) as u8,
        ];
        proof {
            assert forall|i: int| 0 <= i < 6 implies #[trigger] r@[i] == 48 + ((v as int) / (pow10(
                5 - i,
            ) as int)) % 10 by {
                reveal_with_fuel(pow10, 6);
            }
        }
        r
    }
}

pub open spec fn pow10(n: int) -> nat
    decreases n,
{
    if n <= 0 {
        1
    } else {
        10 * pow10(n - 1)
    }
}

#[derive(Clone, Copy, Debug, PartialEq, Eq, Structural)]
pub enum PairingCryptoError {
    Identity(IdentityError),
    Random,
    IncompatibleVersion,
    VersionDowngrade,
    TranscriptMismatch,
    Rejected,
    CodeDerivation,
}

/// Which pairing message a signature covers; each has its own domain.
#[derive(Clone, Copy, Debug, PartialEq, Eq, Structural)]
pub enum SignedMessage {
    ClientHello,
    ServerHello,
    Decision,
    Commit,
}

/// `Halo ClientHello v1`, `Halo ServerHello v1`, `Halo PairingDecision v1`
/// or `Halo PairingCommit v1`.
pub open spec fn domain_of(kind: SignedMessage) -> Seq<u8> {
    match kind {
        SignedMessage::ClientHello => seq![
            72u8, 97u8, 108u8, 111u8, 32u8, 67u8, 108u8, 105u8, 101u8, 110u8, 116u8, 72u8, 101u8,
            108u8, 108u8, 111u8, 32u8, 118u8, 49u8,
        ],
        SignedMessage::ServerHello => seq![
            72u8, 97u8, 108u8, 111u8, 32u8, 83u8, 101u8, 114u8, 118u8, 101u8, 114u8, 72u8, 101u8,
            108u8, 108u8, 111u8, 32u8, 118u8, 49u8,
        ],
        SignedMessage::Decision => seq![
            72u8, 97u8, 108u8, 111u8, 32u8, 80u8, 97u8, 105u8, 114u8, 105u8, 110u8, 103u8, 68u8,
            101u8, 99u8, 105u8, 115u8, 105u8, 111u8, 110u8, 32u8, 118u8, 49u8,
        ],
        SignedMessage::Commit => seq![
            72u8, 97u8, 108u8, 111u8, 32u8, 80u8, 97u8, 105u8, 114u8, 105u8, 110u8, 103u8, 67u8,
            111u8, 109u8, 109u8, 105u8, 116u8, 32u8, 118u8, 49u8,
        ],
    }
}

fn domain(kind: SignedMessage) -> (r: Vec<u8>)
    ensures
        r@ == domain_of(kind),
{
    let r = match kind {
        SignedMessage::ClientHello => vec![
            72u8, 97u8, 108u8, 111u8, 32u8, 67u8, 108u8, 105u8, 101u8, 110u8, 116u8, 72u8, 101u8,
            108u8, 108u8, 111u8, 32u8, 118u8, 49u8,
        ],
        SignedMessage::ServerHello => vec![
            72u8, 97u8, 108u8, 111u8, 32u8, 83u8, 101u8, 114u8, 118u8, 101u8, 114u8, 72u8, 101u8,
            108u8, 108u8, 111u8, 32u8, 118u8, 49u8,
        ],
        SignedMessage::Decision => vec![
            72u8, 97u8, 108u8, 111u8, 32u8, 80u8, 97u8, 105u8, 114u8, 105u8, 110u8, 103u8, 68u8,
            101u8, 99u8, 105u8, 115u8, 105u8, 111u8, 110u8, 32u8, 118u8, 49u8,
        ],
        SignedMessage::Commit => vec![
            72u8, 97u8, 108u8, 111u8, 32u8, 80u8, 97u8, 105u8, 114u8, 105u8, 110u8, 103u8, 67u8,
            111u8, 109u8, 109u8, 105u8, 116u8, 32u8, 118u8, 49u8,
        ],
    };
    assert(r@ =~= domain_of(kind));
    r
}

/// `Halo Pairing Transcript v1`
pub open spec fn transcript_domain() -> Seq<u8> {
    seq![
        72u8, 97u8, 108u8, 111u8, 32u8, 80u8, 97u8, 105u8, 114u8, 105u8, 110u8, 103u8, 32u8, 84u8,
        114u8, 97u8, 110u8, 115u8, 99u8, 114u8, 105u8, 112u8, 116u8, 32u8, 118u8, 49u8,
    ]
}

/// `Halo pairing short code v1`
pub open spec fn code_salt() -> Seq<u8> {
    seq![
        72u8, 97u8, 108u8, 111u8, 32u8, 112u8, 97u8, 105u8, 114u8, 105u8, 110u8, 103u8, 32u8, 115u8,
        104u8, 111u8, 114u8, 116u8, 32u8, 99u8, 111u8, 100u8, 101u8, 32u8, 118u8, 49u8,
    ]
}

/// `decimal`
pub open spec fn code_info() -> Seq<u8> {
    seq![100u8, 101u8, 99u8, 105u8, 109u8, 97u8, 108u8]
}

/// One length-prefixed component: its length as a big-endian `u32`
/// (saturated), then its bytes.
pub open spec fn component(b: Seq<u8>) -> Seq<u8> {
    be32(
        if b.len() > u32::MAX {
            u32::MAX
        } else {
            b.len() as u32
        },
    ) + b
}

fn push_component(out: &mut Vec<u8>, bytes: &[u8])
    ensures
        final(out)@ == old(out)@ + component(bytes@),
{
    let length: u32 = if bytes.len() > u32::MAX as usize {
        u32::MAX
    } else {
        bytes.len() as u32
    };
    push_be32(out, length);
    push_all(out, bytes);
    assert(final(out)@ =~= old(out)@ + component(bytes@));
}

/// What a pairing signature covers: domain, channel binding and payload.
pub open spec fn spec_signature_input(kind: SignedMessage, binding: Seq<u8>, payload: Seq<u8>) -> Seq<
    u8,
> {
    component(domain_of(kind)) + component(binding) + component(payload)
}

pub fn signature_input(kind: SignedMessage, binding: &TlsChannelBinding, payload: &[u8]) -> (r: Vec<
    u8,
>)
    ensures
        r@ == spec_signature_input(kind, binding.0@, payload@),
{
    let mut out: Vec<u8> = Vec::new();
    let d = domain(kind);
    push_component(&mut out, d.as_slice());
    push_component(&mut out, binding.0.as_slice());
    push_component(&mut out, payload);
    assert(out@ =~= spec_signature_input(kind, binding.0@, payload@));
    out
}

/// The SHA-256 digest of the client's hello frame.
pub fn client_hello_hash(frame: &[u8]) -> (r: [u8; TRANSCRIPT_HASH_LEN])
    ensures
        r@ == digest32(frame@),
{
    sha256_digest(frame)
}

/// What the transcript hash is taken over: the domain, the channel binding
/// and both hello frames, each length-prefixed.
pub open spec fn transcript_input(binding: Seq<u8>, client_frame: Seq<u8>, server_frame: Seq<u8>) -> Seq<
    u8,
> {
    component(transcript_domain()) + component(binding) + component(client_frame) + component(
        server_frame,
    )
}

/// The transcript both sides sign decisions and commits over.
pub open spec fn spec_transcript_hash(binding: Seq<u8>, client_frame: Seq<u8>, server_frame: Seq<
    u8,
>) -> Seq<u8> {
    digest32(transcript_input(binding, client_frame, server_frame))
}

/// A length-prefixed component can be read back off the front of what
/// follows it.
proof fn lemma_component_prefix(a: Seq<u8>, ra: Seq<u8>, b: Seq<u8>, rb: Seq<u8>)
    requires
        a.len() <= u32::MAX,
        b.len() <= u32::MAX,
        component(a) + ra == component(b) + rb,
    ensures
        a == b,
        ra == rb,
{
    let x = component(a) + ra;
    let y = component(b) + rb;
    assert(x.subrange(0, 4) =~= be32(a.len() as u32));
    assert(y.subrange(0, 4) =~= be32(b.len() as u32));
    crate::be_bytes::lemma_be32(a.len() as u32, x, 0);
    crate::be_bytes::lemma_be32(b.len() as u32, x, 0);
    assert(a.len() == b.len());
    assert(a =~= x.subrange(4, 4 + a.len() as int));
    assert(b =~= y.subrange(4, 4 + b.len() as int));
    assert(ra =~= x.subrange(4 + a.len() as int, x.len() as int));
    assert(rb =~= y.subrange(4 + b.len() as int, y.len() as int));
}

/// The transcript hash's input encodes its parts unambiguously: different
/// bindings or hello frames (each shorter than 4 GiB) give different inputs,
/// so moving bytes from one frame to the other changes what is hashed.
pub proof fn lemma_transcript_input_injective(
    b1: Seq<u8>,
    c1: Seq<u8>,
    s1: Seq<u8>,
    b2: Seq<u8>,
    c2: Seq<u8>,
    s2: Seq<u8>,
)
    requires
        b1.len() <= u32::MAX,
        c1.len() <= u32::MAX,
        s1.len() <= u32::MAX,
        b2.len() <= u32::MAX,
        c2.len() <= u32::MAX,
        s2.len() <= u32::MAX,
        transcript_input(b1, c1, s1) == transcript_input(b2, c2, s2),
    ensures
        b1 == b2,
        c1 == c2,
        s1 == s2,
{
    let d = transcript_domain();
    assert(transcript_input(b1, c1, s1) =~= component(d) + (component(b1) + (component(c1)
        + component(s1))));
    assert(transcript_input(b2, c2, s2) =~= component(d) + (component(b2) + (component(c2)
        + component(s2))));
    lemma_component_prefix(d, component(b1) + (component(c1) + component(s1)), d, component(b2) + (
    component(c2) + component(s2)));
    lemma_component_prefix(b1, component(c1) + component(s1), b2, component(c2) + component(s2));
    lemma_component_prefix(c1, component(s1), c2, component(s2));
    lemma_component_prefix(s1, Seq::empty(), s2, Seq::empty());
    assert(component(s1) + Seq::<u8>::empty() =~= component(s1));
    assert(component(s2) + Seq::<u8>::empty() =~= component(s2));
}

pub fn transcript_hash(binding: TlsChannelBinding, client_frame: &[u8], server_frame: &[u8]) -> (r:
    [u8; TRANSCRIPT_HASH_LEN])
    ensures
        r@ == spec_transcript_hash(binding.0@, client_frame@, server_frame@),
{
    let label: [u8; 26] = [
        72u8, 97u8, 108u8, 111u8, 32u8, 80u8, 97u8, 105u8, 114u8, 105u8, 110u8, 103u8, 32u8, 84u8,
        114u8, 97u8, 110u8, 115u8, 99u8, 114u8, 105u8, 112u8, 116u8, 32u8, 118u8, 49u8,
    ];
    assert(label@ =~= transcript_domain());
    let mut input: Vec<u8> = Vec::new();
    push_component(&mut input, label.as_slice());
    push_component(&mut input, binding.0.as_slice());
    push_component(&mut input, client_frame);
    push_component(&mut input, server_frame);
    assert(input@ =~= component(transcript_domain()) + component(binding.0@) + component(
        client_frame@,
    ) + component(server_frame@));
    sha256_digest(input.as_slice())
}

/// HKDF-SHA256 output key material of `length` bytes.
pub uninterp spec fn hkdf_sha256(salt: Seq<u8>, ikm: Seq<u8>, info: Seq<u8>, length: nat) -> Seq<u8>;

/// Calls `Hkdf::<Sha256>::new(Some(salt), ikm)` and `expand(info, ..)` into
/// 64 bytes. `expand` fails only for outputs longer than 255 hash blocks,
/// so for 64 bytes it always succeeds.
#[verifier::external_body]
fn hkdf_expand_64(salt: &[u8], ikm: &[u8], info: &[u8]) -> (r: Option<[u8; CODE_OKM_LEN]>)
    ensures
        r is Some,
        r matches Some(okm) ==> okm@ == hkdf_sha256(salt@, ikm@, info@, CODE_OKM_LEN as nat),
{
    let hkdf = Hkdf::<Sha256>::new(Some(salt), ikm);
    let mut okm = [0u8; CODE_OKM_LEN];
    hkdf.expand(info, &mut okm).ok().map(|()| okm)
}

/// The code drawn from key material: the first of its sixteen big-endian
/// 32-bit words, from word `i` on, that lies below `CODE_LIMIT`, reduced
/// modulo one million.
pub open spec fn code_from_okm(okm: Seq<u8>, i: int) -> Option<u32>
    decreases 16 - i,
{
    if i >= 16 || i < 0 {
        None
    } else if read_be32(okm, 4 * i) < CODE_LIMIT {
        Some((read_be32(okm, 4 * i) % (CODE_RANGE as u32)) as u32)
    } else {
        code_from_okm(okm, i + 1)
    }
}

/// The rejection sampling `pairing_code` applies to its key material.
pub fn code_from_key_material(okm: &[u8; CODE_OKM_LEN]) -> (r: Result<
    PairingCode,
    PairingCryptoError,
>)
    ensures
        match code_from_okm(okm@, 0) {
            Some(v) => r matches Ok(c) && c.spec_value() == v,
            None => r == Err::<PairingCode, PairingCryptoError>(PairingCryptoError::CodeDerivation),
        },
        r matches Ok(c) ==> c.spec_value() < CODE_RANGE,
{
    let mut i: usize = 0;
    while i < 16
        invariant
            i <= 16,
            code_from_okm(okm@, 0) == code_from_okm(okm@, i as int),
        decreases 16 - i,
    {
        let value = read_u32(okm.as_slice(), 4 * i) as u64;
        if value < CODE_LIMIT {
            return Ok(PairingCode((value % (CODE_RANGE as u64)) as u32));
        }
        i = i + 1;
    }
    Err(PairingCryptoError::CodeDerivation)
}

/// Derives the six-digit code from a transcript hash.
pub fn pairing_code(transcript: &[u8; TRANSCRIPT_HASH_LEN]) -> (r: Result<
    PairingCode,
    PairingCryptoError,
>)
    ensures
        match code_from_okm(
            hkdf_sha256(code_salt(), transcript@, code_info(), CODE_OKM_LEN as nat),
            0,
        ) {
            Some(v) => r matches Ok(c) && c.spec_value() == v,
            None => r == Err::<PairingCode, PairingCryptoError>(PairingCryptoError::CodeDerivation),
        },
        r matches Ok(c) ==> c.spec_value() < CODE_RANGE,
{
    let salt: [u8; 26] = [
        72u8, 97u8, 108u8, 111u8, 32u8, 112u8, 97u8, 105u8, 114u8, 105u8, 110u8, 103u8, 32u8, 115u8,
        104u8, 111u8, 114u8, 116u8, 32u8, 99u8, 111u8, 100u8, 101u8, 32u8, 118u8, 49u8,
    ];
    let info: [u8; 7] = [100u8, 101u8, 99u8, 105u8, 109u8, 97u8, 108u8];
    assert(salt@ =~= code_salt());
    assert(info@ =~= code_info());
    match hkdf_expand_64(salt.as_slice(), transcript.as_slice(), info.as_slice()) {
        Some(okm) => code_from_key_material(&okm),
        None => Err(PairingCryptoError::CodeDerivation),
    }
}

/// Why a signed message is refused: its key or signature, as the identity
/// layer judges them over the message's signature input.
pub open spec fn signed_error(
    kind: SignedMessage,
    binding: Seq<u8>,
    payload: Seq<u8>,
    key: Seq<u8>,
    signature: Seq<u8>,
) -> Option<PairingCryptoError> {
    match public_key_error(key) {
        Some(e) => Some(PairingCryptoError::Identity(e)),
        None => match verify_error(key, spec_signature_input(kind, binding, payload), signature) {
            Some(e) => Some(PairingCryptoError::Identity(e)),
            None => None,
        },
    }
}

fn verify_signed(
    kind: SignedMessage,
    binding: &TlsChannelBinding,
    payload: &[u8],
    key: [u8; 65],
    signature: [u8; 64],
) -> (r: Result<IdentityPublicKey, PairingCryptoError>)
    ensures
        r is Err <==> signed_error(kind, binding.0@, payload@, key@, signature@) is Some,
        r matches Err(e) ==> signed_error(kind, binding.0@, payload@, key@, signature@) == Some(e),
        r matches Ok(k) ==> k.spec_array() == key,
{
    let public = match IdentityPublicKey::from_bytes(key) {
        Ok(k) => k,
        Err(e) => return Err(PairingCryptoError::Identity(e)),
    };
    let input = signature_input(kind, binding, payload);
    match public.verify(input.as_slice(), &IdentitySignature::from_bytes(signature)) {
        Ok(()) => Ok(public),
        Err(e) => Err(PairingCryptoError::Identity(e)),
    }
}

fn sign_payload(
    identity: &DeviceIdentity,
    kind: SignedMessage,
    binding: &TlsChannelBinding,
    payload: &[u8],
) -> (r: Result<[u8; 64], PairingCryptoError>)
    ensures
        match ecdsa_sign(identity.spec_secret(), spec_signature_input(kind, binding.0@, payload@)) {
            Some(s) => r matches Ok(sig) && sig@ == s,
            None => r == Err::<[u8; 64], PairingCryptoError>(
                PairingCryptoError::Identity(IdentityError::InvalidSecret),
            ),
        },
        r matches Ok(sig) ==> verify_error(
            p256_public_point(identity.spec_secret()),
            spec_signature_input(kind, binding.0@, payload@),
            sig@,
        ) is None && public_key_error(p256_public_point(identity.spec_secret())) is None,
{
    let input = signature_input(kind, binding, payload);
    match identity.sign(input.as_slice()) {
        Ok(signature) => Ok(signature.0),
        Err(e) => Err(PairingCryptoError::Identity(e)),
    }
}

/// The signed part of a client hello with these fields.
pub open spec fn client_hello_input(
    versions: ProtocolRange,
    capabilities: Capabilities,
    nonce: Seq<u8>,
    key: Seq<u8>,
) -> Seq<u8> {
    be16(versions.lo()) + be16(versions.hi()) + be64(capabilities.0) + nonce + key
}

/// Signing the client hello with this nonce fails.
pub open spec fn client_hello_unsignable(
    secret: Seq<u8>,
    versions: ProtocolRange,
    capabilities: Capabilities,
    binding: Seq<u8>,
    nonce: Seq<u8>,
) -> bool {
    ecdsa_sign(
        secret,
        spec_signature_input(
            SignedMessage::ClientHello,
            binding,
            client_hello_input(versions, capabilities, nonce, p256_public_point(secret)),
        ),
    ) is None
}

/// `m` is the client hello our identity makes with its nonce: our ranges
/// and key, signed on this channel.
pub open spec fn client_hello_made(
    m: ClientHello,
    secret: Seq<u8>,
    versions: ProtocolRange,
    capabilities: Capabilities,
    binding: Seq<u8>,
) -> bool {
    &&& m.versions == versions
    &&& m.capabilities == capabilities
    &&& m.identity_key@ == p256_public_point(secret)
    &&& ecdsa_sign(
        secret,
        spec_signature_input(SignedMessage::ClientHello, binding, client_hello_unsigned(m)),
    ) == Some(m.signature@)
}

/// The client hello with a given nonce: our ranges and key, signed on this
/// channel. It verifies under our own key.
pub fn client_hello_from_nonce(
    identity: &DeviceIdentity,
    versions: ProtocolRange,
    capabilities: Capabilities,
    binding: TlsChannelBinding,
    nonce: [u8; NONCE_LEN],
) -> (r: Result<ClientHello, PairingCryptoError>)
    ensures
        client_hello_unsignable(identity.spec_secret(), versions, capabilities, binding.0@, nonce@)
            ==> r == Err::<ClientHello, PairingCryptoError>(
            PairingCryptoError::Identity(IdentityError::InvalidSecret),
        ),
        !client_hello_unsignable(identity.spec_secret(), versions, capabilities, binding.0@, nonce@)
            ==> (r matches Ok(m) && m.nonce == nonce && client_hello_made(
            m,
            identity.spec_secret(),
            versions,
            capabilities,
            binding.0@,
        )),
        r matches Ok(m) ==> signed_error(
            SignedMessage::ClientHello,
            binding.0@,
            client_hello_unsigned(m),
            m.identity_key@,
            m.signature@,
        ) is None,
{
    let mut message = ClientHello {
        versions,
        capabilities,
        nonce,
        identity_key: *identity.public_key().as_bytes(),
        signature: [0u8; 64],
    };
    let payload = message.unsigned_payload();
    assert(client_hello_unsigned(message) == client_hello_input(
        versions,
        capabilities,
        nonce@,
        p256_public_point(identity.spec_secret()),
    ));
    let signature = match sign_payload(
        identity,
        SignedMessage::ClientHello,
        &binding,
        payload.as_slice(),
    ) {
        Ok(s) => s,
        Err(e) => return Err(e),
    };
    message.signature = signature;
    assert(client_hello_unsigned(message) == payload@);
    Ok(message)
}

/// Opens pairing: a fresh nonce, our key, and a signature over the hello.
/// Apart from a failed draw of the nonce, the result is
/// `client_hello_from_nonce`'s for the nonce drawn.
pub fn create_client_hello(
    identity: &DeviceIdentity,
    versions: ProtocolRange,
    capabilities: Capabilities,
    binding: TlsChannelBinding,
) -> (r: Result<ClientHello, PairingCryptoError>)
    ensures
        r matches Ok(m) ==> client_hello_made(
            m,
            identity.spec_secret(),
            versions,
            capabilities,
            binding.0@,
        ) && !client_hello_unsignable(
            identity.spec_secret(),
            versions,
            capabilities,
            binding.0@,
            m.nonce@,
        ),
        r matches Ok(m) ==> signed_error(
            SignedMessage::ClientHello,
            binding.0@,
            client_hello_unsigned(m),
            m.identity_key@,
            m.signature@,
        ) is None,
        r matches Err(e) ==> e == PairingCryptoError::Random || (e == PairingCryptoError::Identity(
            IdentityError::InvalidSecret,
        ) && exists|nonce: Seq<u8>|
            nonce.len() == NONCE_LEN && #[trigger] client_hello_unsignable(
                identity.spec_secret(),
                versions,
                capabilities,
                binding.0@,
                nonce,
            )),
{
    let nonce = match random_array::<NONCE_LEN>() {
        Some(n) => n,
        None => return Err(PairingCryptoError::Random),
    };
    let r = client_hello_from_nonce(identity, versions, capabilities, binding, nonce);
    proof {
        if r is Err {
            assert(client_hello_unsignable(identity.spec_secret(), versions, capabilities, binding.0@, nonce@));
        } else {
            assert(r->Ok_0.nonce@ == nonce@);
        }
    }
    r
}

/// Checks a client hello: a canonical key that signed this hello on this
/// channel.
pub fn verify_client_hello(message: &ClientHello, binding: TlsChannelBinding) -> (r: Result<
    IdentityPublicKey,
    PairingCryptoError,
>)
    ensures
        r is Err <==> signed_error(
            SignedMessage::ClientHello,
            binding.0@,
            client_hello_unsigned(*message),
            message.identity_key@,
            message.signature@,
        ) is Some,
        r matches Err(e) ==> signed_error(
            SignedMessage::ClientHello,
            binding.0@,
            client_hello_unsigned(*message),
            message.identity_key@,
            message.signature@,
        ) == Some(e),
        r matches Ok(k) ==> k.spec_array() == message.identity_key,
{
    let payload = message.unsigned_payload();
    verify_signed(
        SignedMessage::ClientHello,
        &binding,
        payload.as_slice(),
        message.identity_key,
        message.signature,
    )
}

/// The signed part of a server hello with these fields.
pub open spec fn server_hello_input(
    selected_version: u16,
    versions: ProtocolRange,
    capabilities: Capabilities,
    nonce: Seq<u8>,
    key: Seq<u8>,
    client_hello_hash: Seq<u8>,
) -> Seq<u8> {
    be16(selected_version) + be16(versions.lo()) + be16(versions.hi()) + be64(capabilities.0) + nonce
        + key + client_hello_hash
}

/// Signing the server hello with this nonce fails.
pub open spec fn server_hello_unsignable(
    secret: Seq<u8>,
    selected_version: u16,
    versions: ProtocolRange,
    capabilities: Capabilities,
    client_frame: Seq<u8>,
    binding: Seq<u8>,
    nonce: Seq<u8>,
) -> bool {
    ecdsa_sign(
        secret,
        spec_signature_input(
            SignedMessage::ServerHello,
            binding,
            server_hello_input(
                selected_version,
                versions,
                capabilities,
                nonce,
                p256_public_point(secret),
                digest32(client_frame),
            ),
        ),
    ) is None
}

/// `m` is the server hello our identity makes with its nonce: the chosen
/// version, our ranges and key, the hash of the client's frame, signed on
/// this channel.
pub open spec fn server_hello_made(
    m: ServerHello,
    secret: Seq<u8>,
    selected_version: u16,
    versions: ProtocolRange,
    capabilities: Capabilities,
    client_frame: Seq<u8>,
    binding: Seq<u8>,
) -> bool {
    &&& m.selected_version == selected_version
    &&& m.versions == versions
    &&& m.capabilities == capabilities
    &&& m.identity_key@ == p256_public_point(secret)
    &&& m.client_hello_hash@ == digest32(client_frame)
    &&& ecdsa_sign(
        secret,
        spec_signature_input(SignedMessage::ServerHello, binding, server_hello_unsigned(m)),
    ) == Some(m.signature@)
}

/// The server hello with a given nonce for the version already chosen.
pub fn server_hello_from_nonce(
    identity: &DeviceIdentity,
    selected_version: u16,
    versions: ProtocolRange,
    capabilities: Capabilities,
    client_frame: &[u8],
    binding: TlsChannelBinding,
    nonce: [u8; NONCE_LEN],
) -> (r: Result<ServerHello, PairingCryptoError>)
    ensures
        server_hello_unsignable(
            identity.spec_secret(),
            selected_version,
            versions,
            capabilities,
            client_frame@,
            binding.0@,
            nonce@,
        ) ==> r == Err::<ServerHello, PairingCryptoError>(
            PairingCryptoError::Identity(IdentityError::InvalidSecret),
        ),
        !server_hello_unsignable(
            identity.spec_secret(),
            selected_version,
            versions,
            capabilities,
            client_frame@,
            binding.0@,
            nonce@,
        ) ==> (r matches Ok(m) && m.nonce == nonce && server_hello_made(
            m,
            identity.spec_secret(),
            selected_version,
            versions,
            capabilities,
            client_frame@,
            binding.0@,
        )),
        r matches Ok(m) ==> signed_error(
            SignedMessage::ServerHello,
            binding.0@,
            server_hello_unsigned(m),
            m.identity_key@,
            m.signature@,
        ) is None,
{
    let mut message = ServerHello {
        selected_version,
        versions,
        capabilities,
        nonce,
        identity_key: *identity.public_key().as_bytes(),
        client_hello_hash: client_hello_hash(client_frame),
        signature: [0u8; 64],
    };
    let payload = message.unsigned_payload();
    assert(server_hello_unsigned(message) == server_hello_input(
        selected_version,
        versions,
        capabilities,
        nonce@,
        p256_public_point(identity.spec_secret()),
        digest32(client_frame@),
    ));
    let signature = match sign_payload(
        identity,
        SignedMessage::ServerHello,
        &binding,
        payload.as_slice(),
    ) {
        Ok(s) => s,
        Err(e) => return Err(e),
    };
    message.signature = signature;
    assert(server_hello_unsigned(message) == payload@);
    Ok(message)
}

/// Answers a verified client hello with the highest shared version. Apart
/// from a failed draw of the nonce, the result is `server_hello_from_nonce`'s
/// for the nonce drawn; the hello it makes passes the client's check.
pub fn create_server_hello(
    identity: &DeviceIdentity,
    versions: ProtocolRange,
    capabilities: Capabilities,
    client_frame: &[u8],
    client: &ClientHello,
    binding: TlsChannelBinding,
) -> (r: Result<ServerHello, PairingCryptoError>)
    ensures
        signed_error(
            SignedMessage::ClientHello,
            binding.0@,
            client_hello_unsigned(*client),
            client.identity_key@,
            client.signature@,
        ) matches Some(e) ==> r == Err::<ServerHello, PairingCryptoError>(e),
        signed_error(
            SignedMessage::ClientHello,
            binding.0@,
            client_hello_unsigned(*client),
            client.identity_key@,
            client.signature@,
        ) is None && versions.negotiated(client.versions) is None ==> r == Err::<
            ServerHello,
            PairingCryptoError,
        >(PairingCryptoError::IncompatibleVersion),
        signed_error(
            SignedMessage::ClientHello,
            binding.0@,
            client_hello_unsigned(*client),
            client.identity_key@,
            client.signature@,
        ) is None && versions.negotiated(client.versions) is Some ==> (r matches Err(e) ==> e
            == PairingCryptoError::Random || (e == PairingCryptoError::Identity(
            IdentityError::InvalidSecret,
        ) && exists|nonce: Seq<u8>|
            nonce.len() == NONCE_LEN && #[trigger] server_hello_unsignable(
                identity.spec_secret(),
                versions.negotiated(client.versions)->0,
                versions,
                capabilities,
                client_frame@,
                binding.0@,
                nonce,
            ))),
        r matches Ok(m) ==> {
            &&& Some(m.selected_version) == versions.negotiated(client.versions)
            &&& server_hello_made(
                m,
                identity.spec_secret(),
                m.selected_version,
                versions,
                capabilities,
                client_frame@,
                binding.0@,
            )
            &&& !server_hello_unsignable(
                identity.spec_secret(),
                m.selected_version,
                versions,
                capabilities,
                client_frame@,
                binding.0@,
                m.nonce@,
            )
            &&& server_hello_error(client_frame@, *client, m, binding.0@) is None
        },
{
    match verify_client_hello(client, binding) {
        Ok(_) => {},
        Err(e) => return Err(e),
    }
    let selected_version = match versions.negotiate(client.versions) {
        Some(v) => v,
        None => return Err(PairingCryptoError::IncompatibleVersion),
    };
    let nonce = match random_array::<NONCE_LEN>() {
        Some(n) => n,
        None => return Err(PairingCryptoError::Random),
    };
    let r = server_hello_from_nonce(
        identity,
        selected_version,
        versions,
        capabilities,
        client_frame,
        binding,
        nonce,
    );
    proof {
        if r is Err {
            assert(server_hello_unsignable(
                identity.spec_secret(),
                selected_version,
                versions,
                capabilities,
                client_frame@,
                binding.0@,
                nonce@,
            ));
        } else {
            assert(r->Ok_0.nonce@ == nonce@);
        }
    }
    r
}

/// Why a server hello is refused: it answers another client frame, picks
/// other than the highest shared version, or is not properly signed.
pub open spec fn server_hello_error(
    client_frame: Seq<u8>,
    client: ClientHello,
    server: ServerHello,
    binding: Seq<u8>,
) -> Option<PairingCryptoError> {
    if server.client_hello_hash@ != digest32(client_frame) {
        Some(PairingCryptoError::TranscriptMismatch)
    } else if client.versions.negotiated(server.versions) != Some(server.selected_version) {
        Some(PairingCryptoError::VersionDowngrade)
    } else {
        signed_error(
            SignedMessage::ServerHello,
            binding,
            server_hello_unsigned(server),
            server.identity_key@,
            server.signature@,
        )
    }
}

pub fn verify_server_hello(
    client_frame: &[u8],
    client: &ClientHello,
    server: &ServerHello,
    binding: TlsChannelBinding,
) -> (r: Result<IdentityPublicKey, PairingCryptoError>)
    ensures
        r is Err <==> server_hello_error(client_frame@, *client, *server, binding.0@) is Some,
        r matches Err(e) ==> server_hello_error(client_frame@, *client, *server, binding.0@) == Some(
            e,
        ),
        r matches Ok(k) ==> k.spec_array() == server.identity_key,
{
    let expected = client_hello_hash(client_frame);
    if !bytes_equal(server.client_hello_hash.as_slice(), expected.as_slice()) {
        return Err(PairingCryptoError::TranscriptMismatch);
    }
    match client.versions.negotiate(server.versions) {
        Some(v) => {
            if v != server.selected_version {
                return Err(PairingCryptoError::VersionDowngrade);
            }
        },
        None => return Err(PairingCryptoError::VersionDowngrade),
    }
    let payload = server.unsigned_payload();
    verify_signed(
        SignedMessage::ServerHello,
        &binding,
        payload.as_slice(),
        server.identity_key,
        server.signature,
    )
}

/// The receiver's signed accept or reject of a transcript.
pub fn create_decision(
    identity: &DeviceIdentity,
    transcript_hash: [u8; TRANSCRIPT_HASH_LEN],
    accepted: bool,
    binding: TlsChannelBinding,
) -> (r: Result<PairingDecision, PairingCryptoError>)
    ensures
        r matches Ok(m) ==> m.transcript_hash == transcript_hash && m.accepted == accepted
            && ecdsa_sign(
            identity.spec_secret(),
            spec_signature_input(SignedMessage::Decision, binding.0@, decision_unsigned(m)),
        ) == Some(m.signature@),
        r is Err <==> ecdsa_sign(
            identity.spec_secret(),
            spec_signature_input(
                SignedMessage::Decision,
                binding.0@,
                transcript_hash@ + seq![
                    if accepted {
                        1u8
                    } else {
                        0u8
                    },
                ],
            ),
        ) is None,
        r matches Err(e) ==> e == PairingCryptoError::Identity(IdentityError::InvalidSecret),
        r matches Ok(m) ==> decision_error(
            p256_public_point(identity.spec_secret()),
            m,
            transcript_hash@,
            binding.0@,
        ) == if accepted {
            None
        } else {
            Some(PairingCryptoError::Rejected)
        },
{
    let mut message = PairingDecision { transcript_hash, accepted, signature: [0u8; 64] };
    let payload = message.unsigned_payload();
    let signature = match sign_payload(
        identity,
        SignedMessage::Decision,
        &binding,
        payload.as_slice(),
    ) {
        Ok(s) => s,
        Err(e) => return Err(e),
    };
    message.signature = signature;
    Ok(message)
}

/// Why a decision is refused: another transcript, a bad signature, or a
/// properly signed rejection.
pub open spec fn decision_error(
    key: Seq<u8>,
    decision: PairingDecision,
    expected: Seq<u8>,
    binding: Seq<u8>,
) -> Option<PairingCryptoError> {
    if decision.transcript_hash@ != expected {
        Some(PairingCryptoError::TranscriptMismatch)
    } else {
        match verify_error(
            key,
            spec_signature_input(SignedMessage::Decision, binding, decision_unsigned(decision)),
            decision.signature@,
        ) {
            Some(e) => Some(PairingCryptoError::Identity(e)),
            None => if !decision.accepted {
                Some(PairingCryptoError::Rejected)
            } else {
                None
            },
        }
    }
}

pub fn verify_decision(
    key: &IdentityPublicKey,
    decision: &PairingDecision,
    expected_transcript: &[u8; TRANSCRIPT_HASH_LEN],
    binding: TlsChannelBinding,
) -> (r: Result<(), PairingCryptoError>)
    ensures
        r is Err <==> decision_error(key@, *decision, expected_transcript@, binding.0@) is Some,
        r matches Err(e) ==> decision_error(key@, *decision, expected_transcript@, binding.0@)
            == Some(e),
{
    if !bytes_equal(decision.transcript_hash.as_slice(), expected_transcript.as_slice()) {
        return Err(PairingCryptoError::TranscriptMismatch);
    }
    let payload = decision.unsigned_payload();
    let input = signature_input(SignedMessage::Decision, &binding, payload.as_slice());
    match key.verify(input.as_slice(), &IdentitySignature::from_bytes(decision.signature)) {
        Ok(()) => {},
        Err(e) => return Err(PairingCryptoError::Identity(e)),
    }
    if !decision.accepted {
        return Err(PairingCryptoError::Rejected);
    }
    Ok(())
}

/// The initiator's signed commitment to a transcript.
pub fn create_commit(
    identity: &DeviceIdentity,
    transcript_hash: [u8; TRANSCRIPT_HASH_LEN],
    binding: TlsChannelBinding,
) -> (r: Result<PairingCommit, PairingCryptoError>)
    ensures
        r matches Ok(m) ==> m.transcript_hash == transcript_hash && ecdsa_sign(
            identity.spec_secret(),
            spec_signature_input(SignedMessage::Commit, binding.0@, commit_unsigned(m)),
        ) == Some(m.signature@),
        r is Err <==> ecdsa_sign(
            identity.spec_secret(),
            spec_signature_input(SignedMessage::Commit, binding.0@, transcript_hash@),
        ) is None,
        r matches Err(e) ==> e == PairingCryptoError::Identity(IdentityError::InvalidSecret),
        r matches Ok(m) ==> commit_error(
            p256_public_point(identity.spec_secret()),
            m,
            transcript_hash@,
            binding.0@,
        ) is None,
{
    let mut message = PairingCommit { transcript_hash, signature: [0u8; 64] };
    let payload = message.unsigned_payload();
    let signature = match sign_payload(identity, SignedMessage::Commit, &binding, payload.as_slice()) {
        Ok(s) => s,
        Err(e) => return Err(e),
    };
    message.signature = signature;
    Ok(message)
}

/// Why a commit is refused: another transcript or a bad signature.
pub open spec fn commit_error(
    key: Seq<u8>,
    commit: PairingCommit,
    expected: Seq<u8>,
    binding: Seq<u8>,
) -> Option<PairingCryptoError> {
    if commit.transcript_hash@ != expected {
        Some(PairingCryptoError::TranscriptMismatch)
    } else {
        match verify_error(
            key,
            spec_signature_input(SignedMessage::Commit, binding, commit_unsigned(commit)),
            commit.signature@,
        ) {
            Some(e) => Some(PairingCryptoError::Identity(e)),
            None => None,
        }
    }
}

pub fn verify_commit(
    key: &IdentityPublicKey,
    commit: &PairingCommit,
    expected_transcript: &[u8; TRANSCRIPT_HASH_LEN],
    binding: TlsChannelBinding,
) -> (r: Result<(), PairingCryptoError>)
    ensures
        r is Err <==> commit_error(key@, *commit, expected_transcript@, binding.0@) is Some,
        r matches Err(e) ==> commit_error(key@, *commit, expected_transcript@, binding.0@)
            == Some(e),
{
    if !bytes_equal(commit.transcript_hash.as_slice(), expected_transcript.as_slice()) {
        return Err(PairingCryptoError::TranscriptMismatch);
    }
    let payload = commit.unsigned_payload();
    let input = signature_input(SignedMessage::Commit, &binding, payload.as_slice());
    match key.verify(input.as_slice(), &IdentitySignature::from_bytes(commit.signature)) {
        Ok(()) => Ok(()),
        Err(e) => Err(PairingCryptoError::Identity(e)),
    }
}

/// A decision or commit for any transcript other than the expected one is
/// refused, whatever its signature.
pub proof fn lemma_other_transcript_refused(
    key: Seq<u8>,
    decision: PairingDecision,
    commit: PairingCommit,
    expected: Seq<u8>,
    binding: Seq<u8>,
)
    requires
        decision.transcript_hash@ != expected,
        commit.transcript_hash@ != expected,
    ensures
        decision_error(key, decision, expected, binding) == Some(
            PairingCryptoError::TranscriptMismatch,
        ),
        commit_error(key, commit, expected, binding) == Some(PairingCryptoError::TranscriptMismatch),
{
}

/// The signature input of one message kind never equals that of another:
/// the domains differ in their length prefix or their bytes.
pub proof fn lemma_domains_separate(a: SignedMessage, b: SignedMessage, binding: Seq<u8>, pa: Seq<u8>, pb: Seq<u8>)
    requires
        a != b,
    ensures
        spec_signature_input(a, binding, pa) != spec_signature_input(b, binding, pb),
{
    let ia = spec_signature_input(a, binding, pa);
    let ib = spec_signature_input(b, binding, pb);
    let da = domain_of(a);
    let db = domain_of(b);
    if ia == ib {
        assert(ia.subrange(0, 4) == ib.subrange(0, 4));
        assert(ia.subrange(0, 4) =~= be32(da.len() as u32));
        assert(ib.subrange(0, 4) =~= be32(db.len() as u32));
        crate::be_bytes::lemma_be32(da.len() as u32, ia, 0);
        crate::be_bytes::lemma_be32(db.len() as u32, ib, 0);
        assert(da.len() == db.len());
        assert(ia.subrange(4, 4 + da.len() as int) =~= da);
        assert(ib.subrange(4, 4 + db.len() as int) =~= db);
        assert(da == db);
        assert(da[5] != db[5] || da[12] != db[12]);
    }
}

} // verus!

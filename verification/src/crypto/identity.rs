//! Device identities: P-256 ECDSA keys from the `p256` crate, their
//! canonical public encoding, low-S signatures, and the protected blob
//! format a platform keystore holds.

use vstd::prelude::*;

use p256::ecdsa::signature::{Signer, Verifier};
use p256::ecdsa::{Signature, SigningKey, VerifyingKey};
use p256::elliptic_curve::Generate;

use crate::be_bytes::{be16, bytes_equal, push_all, push_be16, read_array, read_u16};
use crate::protocol::pairing::{IDENTITY_KEY_LEN, SIGNATURE_LEN};

verus! {

pub const BLOB_VERSION: u16 = 1;

pub const SECRET_KEY_LEN: usize = 32;

/// `HKEY`, the version and the 32-byte secret scalar.
pub const BLOB_LEN: usize = 38;

/// Largest blob a platform adapter may hand over.
pub const MAX_BLOB_LEN: usize = 256;

/// Whether `p256::SecretKey::from_slice` accepts the bytes: 32 bytes of a
/// non-zero scalar below the group order.
pub uninterp spec fn p256_secret_accepted(secret: Seq<u8>) -> bool;

/// The uncompressed SEC1 encoding of the public key of a secret scalar.
pub uninterp spec fn p256_public_point(secret: Seq<u8>) -> Seq<u8>;

/// The low-S RFC 6979 ECDSA/SHA-256 signature of a message under a secret,
/// or `None` where signing fails.
pub uninterp spec fn ecdsa_sign(secret: Seq<u8>, message: Seq<u8>) -> Option<Seq<u8>>;

/// Whether `VerifyingKey::from_sec1_bytes` accepts a SEC1 encoding.
pub uninterp spec fn p256_point_accepted(encoded: Seq<u8>) -> bool;

/// `to_sec1_point(false)` of the key `from_sec1_bytes` parsed.
pub uninterp spec fn p256_uncompressed_point(encoded: Seq<u8>) -> Seq<u8>;

/// Whether `Signature::from_slice` accepts 64 bytes: `r` and `s` non-zero
/// and below the group order.
pub uninterp spec fn ecdsa_signature_parses(signature: Seq<u8>) -> bool;

/// The bytes (`to_bytes`) of the `normalize_s` form of the signature that
/// `Signature::from_slice` parsed.
pub uninterp spec fn ecdsa_signature_normalized(signature: Seq<u8>) -> Seq<u8>;

/// A signature in low-S form: normalizing it changes nothing.
pub open spec fn ecdsa_signature_low_s(signature: Seq<u8>) -> bool {
    ecdsa_signature_normalized(signature) == signature
}

/// Whether `Verifier::verify` accepts a signature over a message under a key.
pub uninterp spec fn ecdsa_verifies(key: Seq<u8>, message: Seq<u8>, signature: Seq<u8>) -> bool;

/// Calls `SigningKey::try_generate`, which draws a random scalar from the
/// operating system, and returns its secret bytes (`SigningKey::to_bytes`);
/// `None` when the system generator fails. The bytes of a generated key are
/// a valid secret scalar.
#[verifier::external_body]
fn generate_secret() -> (r: Option<[u8; SECRET_KEY_LEN]>)
    ensures
        r matches Some(secret) ==> p256_secret_accepted(secret@),
{
    SigningKey::try_generate().ok().map(|key| key.to_bytes().into())
}

/// Calls `SigningKey::from_slice`, which accepts exactly the secrets that
/// `SecretKey::from_slice` accepts.
#[verifier::external_body]
fn secret_accepted(secret: &[u8]) -> (r: bool)
    ensures
        r == p256_secret_accepted(secret@),
{
    SigningKey::from_slice(secret).is_ok()
}

/// Calls `to_sec1_point(false)` on the verifying key of the signing key
/// made from `secret`. An uncompressed SEC1 point starts with tag `0x04`;
/// being the encoding of a valid key, `VerifyingKey::from_sec1_bytes`
/// accepts it and re-encodes it as the same bytes.
#[verifier::external_body]
pub(crate) fn public_point(secret: &[u8; SECRET_KEY_LEN]) -> (r: [u8; IDENTITY_KEY_LEN])
    requires
        p256_secret_accepted(secret@),
    ensures
        r@ == p256_public_point(secret@),
        r@[0] == 4,
        p256_point_accepted(r@),
        p256_uncompressed_point(r@) == r@,
{
    let mut bytes = [0u8; IDENTITY_KEY_LEN];
    if let Ok(key) = SigningKey::from_slice(secret) {
        bytes.copy_from_slice(key.verifying_key().to_sec1_point(false).as_bytes());
    }
    bytes
}

/// Calls `Signer::try_sign` (deterministic RFC 6979 ECDSA over SHA-256)
/// with the signing key made from `secret`, and returns the bytes of the
/// low-S (`normalize_s`) form. Such a signature parses, is its own
/// normalized form, and verifies over the message under the signer's
/// public point, which the point parser accepts as canonical.
#[verifier::external_body]
fn sign_message(secret: &[u8; SECRET_KEY_LEN], message: &[u8]) -> (r: Option<[u8; SIGNATURE_LEN]>)
    requires
        p256_secret_accepted(secret@),
    ensures
        r matches Some(signature) ==> ecdsa_sign(secret@, message@) == Some(signature@),
        r is None ==> ecdsa_sign(secret@, message@) is None,
        r matches Some(signature) ==> {
            &&& ecdsa_signature_parses(signature@)
            &&& ecdsa_signature_normalized(signature@) == signature@
            &&& ecdsa_verifies(p256_public_point(secret@), message@, signature@)
            &&& p256_point_accepted(p256_public_point(secret@))
            &&& p256_uncompressed_point(p256_public_point(secret@)) == p256_public_point(secret@)
        },
{
    let key = SigningKey::from_slice(secret).ok()?;
    let signature: Signature = key.try_sign(message).ok()?;
    Some(signature.normalize_s().to_bytes().into())
}

/// Calls `VerifyingKey::from_sec1_bytes` and, on success, re-encodes the
/// key with `to_sec1_point(false)`, whose uncompressed encoding starts with
/// tag `0x04`.
#[verifier::external_body]
fn parse_point(encoded: &[u8; IDENTITY_KEY_LEN]) -> (r: Option<[u8; IDENTITY_KEY_LEN]>)
    ensures
        r is Some <==> p256_point_accepted(encoded@),
        r matches Some(point) ==> point@ == p256_uncompressed_point(encoded@) && point@[0] == 4,
{
    let key = VerifyingKey::from_sec1_bytes(encoded).ok()?;
    let point = key.to_sec1_point(false);
    let mut bytes = [0u8; IDENTITY_KEY_LEN];
    bytes.copy_from_slice(point.as_bytes());
    Some(bytes)
}

/// Calls `Signature::from_slice` and returns the bytes of the parsed
/// signature's `normalize_s` form; `None` when it does not parse.
#[verifier::external_body]
fn normalized_signature(signature: &[u8; SIGNATURE_LEN]) -> (r: Option<[u8; SIGNATURE_LEN]>)
    ensures
        r is Some <==> ecdsa_signature_parses(signature@),
        r matches Some(normal) ==> normal@ == ecdsa_signature_normalized(signature@),
{
    let parsed = Signature::from_slice(signature).ok()?;
    Some(parsed.normalize_s().to_bytes().into())
}

/// Calls `Verifier::verify` with the parsed key and signature.
#[verifier::external_body]
fn verify_signature(
    key: &[u8; IDENTITY_KEY_LEN],
    message: &[u8],
    signature: &[u8; SIGNATURE_LEN],
) -> (r: bool)
    requires
        p256_point_accepted(key@),
        ecdsa_signature_parses(signature@),
    ensures
        r == ecdsa_verifies(key@, message@, signature@),
{
    match (VerifyingKey::from_sec1_bytes(key), Signature::from_slice(signature)) {
        (Ok(parsed_key), Ok(parsed)) => parsed_key.verify(message, &parsed).is_ok(),
        _ => false,
    }
}

#[derive(Clone, Copy, Debug, PartialEq, Eq, Structural)]
pub enum IdentityError {
    InvalidBlobLength(usize),
    InvalidBlobMagic,
    UnsupportedBlobVersion(u16),
    InvalidSecret,
    InvalidPublicKey,
    NonCanonicalPublicKey,
    InvalidSignatureEncoding,
    NonCanonicalSignature,
    SignatureVerification,
    Random,
}

/// `HKEY`
pub open spec fn blob_magic() -> Seq<u8> {
    seq![0x48u8, 0x4bu8, 0x45u8, 0x59u8]
}

/// Opaque protected bytes a platform keystore holds for the identity.
pub struct SecretIdentityBlob(Vec<u8>);

impl SecretIdentityBlob {
    pub closed spec fn spec_bytes(&self) -> Seq<u8> {
        self.0@
    }

    /// Accepts at most 256 bytes; the content is checked when it is used.
    pub fn new(bytes: Vec<u8>) -> (r: Result<Self, IdentityError>)
        ensures
            r is Ok <==> bytes@.len() <= MAX_BLOB_LEN,
            r matches Ok(b) ==> b.spec_bytes() == bytes@,
            r matches Err(e) ==> e == IdentityError::InvalidBlobLength(bytes@.len() as usize),
    {
        if bytes.len() > MAX_BLOB_LEN {
            return Err(IdentityError::InvalidBlobLength(bytes.len()));
        }
        Ok(SecretIdentityBlob(bytes))
    }

    pub fn as_bytes(&self) -> (r: &[u8])
        ensures
            r@ == self.spec_bytes(),
    {
        self.0.as_slice()
    }
}

/// Why a blob cannot hold an identity, if it cannot.
pub open spec fn blob_error(b: Seq<u8>) -> Option<IdentityError> {
    if b.len() != BLOB_LEN {
        Some(IdentityError::InvalidBlobLength(b.len() as usize))
    } else if b.subrange(0, 4) != blob_magic() {
        Some(IdentityError::InvalidBlobMagic)
    } else if crate::be_bytes::read_be16(b, 4) != BLOB_VERSION {
        Some(IdentityError::UnsupportedBlobVersion(crate::be_bytes::read_be16(b, 4)))
    } else if !p256_secret_accepted(b.subrange(6, 38)) {
        Some(IdentityError::InvalidSecret)
    } else {
        None
    }
}

/// A device's long-term signing identity: a valid P-256 secret scalar.
pub struct DeviceIdentity {
    secret: [u8; SECRET_KEY_LEN],
}

impl DeviceIdentity {
    pub closed spec fn spec_secret(&self) -> Seq<u8> {
        self.secret@
    }

    #[verifier::type_invariant]
    spec fn secret_valid(self) -> bool {
        p256_secret_accepted(self.secret@)
    }

    /// A fresh random identity; fails only when the system generator does.
    pub fn generate() -> (r: Result<Self, IdentityError>)
        ensures
            r matches Err(e) ==> e == IdentityError::Random,
    {
        match generate_secret() {
            Some(secret) => Ok(DeviceIdentity { secret }),
            None => Err(IdentityError::Random),
        }
    }

    /// Restores an identity from its blob: `HKEY`, version 1, then a valid
    /// P-256 secret scalar.
    pub fn from_blob(blob: &SecretIdentityBlob) -> (r: Result<Self, IdentityError>)
        ensures
            r is Err <==> blob_error(blob.spec_bytes()) is Some,
            r matches Err(e) ==> blob_error(blob.spec_bytes()) == Some(e),
            r matches Ok(id) ==> id.spec_secret() == blob.spec_bytes().subrange(6, 38),
    {
        let bytes = blob.as_bytes();
        if bytes.len() != BLOB_LEN {
            return Err(IdentityError::InvalidBlobLength(bytes.len()));
        }
        let magic: [u8; 4] = [0x48u8, 0x4bu8, 0x45u8, 0x59u8];
        assert(magic@ =~= blob_magic());
        if !bytes_equal(&bytes[0..4], magic.as_slice()) {
            return Err(IdentityError::InvalidBlobMagic);
        }
        let version = read_u16(bytes, 4);
        if version != BLOB_VERSION {
            return Err(IdentityError::UnsupportedBlobVersion(version));
        }
        let secret = read_array::<SECRET_KEY_LEN>(bytes, 6);
        if !secret_accepted(secret.as_slice()) {
            return Err(IdentityError::InvalidSecret);
        }
        Ok(DeviceIdentity { secret })
    }

    /// The blob that restores this identity: `HKEY`, version 1, secret.
    pub fn to_blob(&self) -> (r: SecretIdentityBlob)
        ensures
            r.spec_bytes() == blob_magic() + be16(BLOB_VERSION) + self.spec_secret(),
    {
        let magic: [u8; 4] = [0x48u8, 0x4bu8, 0x45u8, 0x59u8];
        assert(magic@ =~= blob_magic());
        let mut bytes: Vec<u8> = Vec::new();
        push_all(&mut bytes, magic.as_slice());
        push_be16(&mut bytes, BLOB_VERSION);
        push_all(&mut bytes, self.secret.as_slice());
        SecretIdentityBlob(bytes)
    }

    /// The uncompressed SEC1 public key.
    pub fn public_key(&self) -> (r: IdentityPublicKey)
        ensures
            r@ == p256_public_point(self.spec_secret()),
            r@[0] == 4,
            public_key_error(r@) is None,
    {
        proof {
            use_type_invariant(self);
        }
        IdentityPublicKey(public_point(&self.secret))
    }

    /// A low-S ECDSA signature over `message`.
    pub fn sign(&self, message: &[u8]) -> (r: Result<IdentitySignature, IdentityError>)
        ensures
            match ecdsa_sign(self.spec_secret(), message@) {
                Some(signature) => r matches Ok(s) && s.0@ == signature,
                None => r == Err::<IdentitySignature, IdentityError>(IdentityError::InvalidSecret),
            },
            r matches Ok(s) ==> verify_error(p256_public_point(self.spec_secret()), message@, s.0@)
                is None && public_key_error(p256_public_point(self.spec_secret())) is None,
    {
        proof {
            use_type_invariant(self);
        }
        match sign_message(&self.secret, message) {
            Some(signature) => Ok(IdentitySignature(signature)),
            None => Err(IdentityError::InvalidSecret),
        }
    }
}

/// Restoring an identity from its own blob gives back the same secret.
pub proof fn lemma_blob_round_trip(secret: Seq<u8>)
    requires
        secret.len() == SECRET_KEY_LEN,
        p256_secret_accepted(secret),
    ensures
        blob_error(blob_magic() + be16(BLOB_VERSION) + secret) is None,
        (blob_magic() + be16(BLOB_VERSION) + secret).subrange(6, 38) == secret,
{
    let b = blob_magic() + be16(BLOB_VERSION) + secret;
    assert(b.subrange(0, 4) =~= blob_magic());
    assert(b.subrange(4, 6) =~= be16(BLOB_VERSION));
    crate::be_bytes::lemma_be16(BLOB_VERSION, b, 4);
    assert(b.subrange(6, 38) =~= secret);
}

/// An uncompressed SEC1 P-256 public key; every key held is a valid point
/// in its canonical encoding.
#[derive(Clone, Copy, Debug, PartialEq, Eq, Hash)]
pub struct IdentityPublicKey([u8; IDENTITY_KEY_LEN]);

/// Why bytes are not a canonical public key, given what the parser made of
/// them.
pub open spec fn public_key_error(encoded: Seq<u8>) -> Option<IdentityError> {
    if !p256_point_accepted(encoded) {
        Some(IdentityError::InvalidPublicKey)
    } else if p256_uncompressed_point(encoded) != encoded {
        Some(IdentityError::NonCanonicalPublicKey)
    } else {
        None
    }
}

/// Why a signature is refused under a key, if it is.
pub open spec fn verify_error(key: Seq<u8>, message: Seq<u8>, signature: Seq<u8>) -> Option<
    IdentityError,
> {
    if !p256_point_accepted(key) {
        Some(IdentityError::InvalidPublicKey)
    } else if !ecdsa_signature_parses(signature) {
        Some(IdentityError::InvalidSignatureEncoding)
    } else if !ecdsa_signature_low_s(signature) {
        Some(IdentityError::NonCanonicalSignature)
    } else if !ecdsa_verifies(key, message, signature) {
        Some(IdentityError::SignatureVerification)
    } else {
        None
    }
}

impl View for IdentityPublicKey {
    type V = Seq<u8>;

    open spec fn view(&self) -> Seq<u8> {
        self.spec_array()@
    }
}

impl IdentityPublicKey {
    /// The key's 65 bytes.
    pub closed spec fn spec_array(self) -> [u8; IDENTITY_KEY_LEN] {
        self.0
    }

    /// The key with these bytes.
    pub closed spec fn from_array(bytes: [u8; IDENTITY_KEY_LEN]) -> Self {
        IdentityPublicKey(bytes)
    }

    #[verifier::type_invariant]
    closed spec fn canonical(self) -> bool {
        public_key_error(self.0@) is None && self.0@[0] == 4
    }

    /// A key is the key of its bytes.
    pub proof fn lemma_array(self, bytes: [u8; IDENTITY_KEY_LEN])
        ensures
            Self::from_array(bytes).spec_array() == bytes,
            self.spec_array() == bytes ==> self == Self::from_array(bytes),
    {
    }

    /// Accepts only a valid point in its canonical uncompressed encoding.
    pub fn from_bytes(bytes: [u8; IDENTITY_KEY_LEN]) -> (r: Result<Self, IdentityError>)
        ensures
            r is Err <==> public_key_error(bytes@) is Some,
            r matches Err(e) ==> public_key_error(bytes@) == Some(e),
            r matches Ok(k) ==> k.spec_array() == bytes && bytes@[0] == 4,
    {
        Self::from_parsed(bytes, parse_point(&bytes))
    }

    /// The decision `from_bytes` takes once the point parser has answered:
    /// `None` when it refused the bytes, otherwise its re-encoding.
    pub fn from_parsed(bytes: [u8; IDENTITY_KEY_LEN], parsed: Option<[u8; IDENTITY_KEY_LEN]>) -> (r:
        Result<Self, IdentityError>)
        requires
            parsed is Some <==> p256_point_accepted(bytes@),
            parsed matches Some(p) ==> p@ == p256_uncompressed_point(bytes@) && p@[0] == 4,
        ensures
            parsed is None ==> r == Err::<Self, IdentityError>(IdentityError::InvalidPublicKey),
            parsed matches Some(p) ==> (if p@ == bytes@ {
                r == Ok::<Self, IdentityError>(Self::from_array(bytes))
            } else {
                r == Err::<Self, IdentityError>(IdentityError::NonCanonicalPublicKey)
            }),
    {
        match parsed {
            None => Err(IdentityError::InvalidPublicKey),
            Some(point) => {
                if bytes_equal(point.as_slice(), bytes.as_slice()) {
                    Ok(IdentityPublicKey(bytes))
                } else {
                    Err(IdentityError::NonCanonicalPublicKey)
                }
            },
        }
    }

    /// The key's bytes: a valid point in canonical uncompressed form.
    pub fn as_bytes(&self) -> (r: &[u8; IDENTITY_KEY_LEN])
        ensures
            *r == self.spec_array(),
            public_key_error(r@) is None,
            r@[0] == 4,
    {
        proof {
            use_type_invariant(self);
        }
        &self.0
    }

    /// Checks a low-S ECDSA signature over `message`.
    pub fn verify(&self, message: &[u8], signature: &IdentitySignature) -> (r: Result<
        (),
        IdentityError,
    >)
        ensures
            r is Err <==> verify_error(self@, message@, signature.0@) is Some,
            r matches Err(e) ==> verify_error(self@, message@, signature.0@) == Some(e),
    {
        if parse_point(&self.0).is_none() {
            return Err(IdentityError::InvalidPublicKey);
        }
        match normalized_signature(&signature.0) {
            None => Err(IdentityError::InvalidSignatureEncoding),
            Some(normal) => {
                if !bytes_equal(normal.as_slice(), signature.0.as_slice()) {
                    Err(IdentityError::NonCanonicalSignature)
                } else if verify_signature(&self.0, message, &signature.0) {
                    Ok(())
                } else {
                    Err(IdentityError::SignatureVerification)
                }
            },
        }
    }
}

/// A 64-byte `r || s` ECDSA signature.
#[derive(Clone, Copy, Debug, PartialEq, Eq)]
pub struct IdentitySignature(pub [u8; SIGNATURE_LEN]);

impl IdentitySignature {
    pub fn from_bytes(bytes: [u8; SIGNATURE_LEN]) -> (r: Self)
        ensures
            r.0 == bytes,
    {
        IdentitySignature(bytes)
    }

    pub fn as_bytes(&self) -> (r: &[u8; SIGNATURE_LEN])
        ensures
            *r == self.0,
    {
        &self.0
    }
}

} // verus!

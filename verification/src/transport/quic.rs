//! The ephemeral TLS identity a platform's native QUIC stack presents: a
//! self-signed certificate from `rcgen` and its P-256 key in the X9.63
//! form (uncompressed public point, then the secret scalar).

use vstd::prelude::*;

use p256::pkcs8::DecodePrivateKey;
use p256::SecretKey;

use crate::be_bytes::push_all;
use crate::crypto::identity::{p256_public_point, p256_secret_accepted, public_point, SECRET_KEY_LEN};

verus! {

/// Longest certificate accepted from the generator or from a peer.
pub const MAX_CERTIFICATE_LEN: usize = 16384;

/// Length of an X9.63 P-256 private key: 65-byte point and 32-byte scalar.
pub const NATIVE_PRIVATE_KEY_LEN: usize = 97;

#[derive(Clone, Copy, Debug, PartialEq, Eq, Structural)]
pub enum QuicEndpointError {
    Bind,
    LocalAddress,
    Certificate,
    TlsConfig,
}

/// A certificate and its private key, for a native TLS stack.
pub struct NativeTlsIdentity {
    pub certificate_der: Vec<u8>,
    pub private_key_x963: Vec<u8>,
}

/// What `p256::SecretKey::from_pkcs8_der` reads from a PKCS#8 document: the
/// 32-byte secret scalar, or nothing.
pub uninterp spec fn pkcs8_p256_secret(der: Seq<u8>) -> Option<Seq<u8>>;

/// Calls `rcgen::generate_simple_self_signed` with one subject name and
/// returns the certificate's DER and its key pair's PKCS#8 DER; `None` when
/// the crate reports an error. The key is fresh and random, so nothing is
/// stated of the bytes.
#[verifier::external_body]
fn generate_self_signed(subject_alt_name: &str) -> (r: Option<(Vec<u8>, Vec<u8>)>) {
    let certificate = rcgen::generate_simple_self_signed(vec![subject_alt_name.to_owned()]).ok()?;
    Some((certificate.cert.der().to_vec(), certificate.signing_key.serialize_der()))
}

/// Calls `SecretKey::from_pkcs8_der` and returns the secret's bytes
/// (`to_bytes`). A secret key holds a non-zero scalar below the group order,
/// which `SigningKey::from_slice` accepts.
#[verifier::external_body]
fn pkcs8_secret(der: &[u8]) -> (r: Option<[u8; SECRET_KEY_LEN]>)
    ensures
        r is Some <==> pkcs8_p256_secret(der@) is Some,
        r matches Some(secret) ==> pkcs8_p256_secret(der@) == Some(secret@) && p256_secret_accepted(
            secret@,
        ),
{
    SecretKey::from_pkcs8_der(der).ok().map(|key| key.to_bytes().into())
}

/// An X9.63 private key: the uncompressed public point of the secret that
/// follows it.
pub open spec fn x963_key_of(secret: Seq<u8>) -> Seq<u8> {
    p256_public_point(secret) + secret
}

/// What a generated certificate and key document make: the certificate
/// must be non-empty and at most `MAX_CERTIFICATE_LEN` bytes, and the
/// document must hold a P-256 secret.
pub open spec fn native_identity_error(certificate: Seq<u8>, pkcs8: Seq<u8>) -> Option<
    QuicEndpointError,
> {
    match pkcs8_p256_secret(pkcs8) {
        None => Some(QuicEndpointError::Certificate),
        Some(secret) => if certificate.len() == 0 || certificate.len() > MAX_CERTIFICATE_LEN
            || x963_key_of(secret).len() != NATIVE_PRIVATE_KEY_LEN {
            Some(QuicEndpointError::Certificate)
        } else {
            None
        },
    }
}

/// Builds the native identity from what the certificate generator made.
pub fn native_identity_from(certificate_der: Vec<u8>, pkcs8: &[u8]) -> (r: Result<
    NativeTlsIdentity,
    QuicEndpointError,
>)
    ensures
        r is Err <==> native_identity_error(certificate_der@, pkcs8@) is Some,
        r matches Err(e) ==> native_identity_error(certificate_der@, pkcs8@) == Some(e),
        r matches Ok(id) ==> id.certificate_der@ == certificate_der@ && (pkcs8_p256_secret(pkcs8@)
            matches Some(secret) && id.private_key_x963@ == x963_key_of(secret)
            && p256_secret_accepted(secret) && secret.len() == SECRET_KEY_LEN)
            && id.private_key_x963@[0] == 4,
{
    let secret = match pkcs8_secret(pkcs8) {
        Some(secret) => secret,
        None => return Err(QuicEndpointError::Certificate),
    };
    let public = public_point(&secret);
    let mut private_key_x963: Vec<u8> = Vec::new();
    push_all(&mut private_key_x963, public.as_slice());
    push_all(&mut private_key_x963, secret.as_slice());
    if certificate_der.len() == 0 || certificate_der.len() > MAX_CERTIFICATE_LEN
        || private_key_x963.len() != NATIVE_PRIVATE_KEY_LEN {
        return Err(QuicEndpointError::Certificate);
    }
    Ok(NativeTlsIdentity { certificate_der, private_key_x963 })
}

/// A fresh self-signed certificate for `halo.invalid` and its key. Which
/// key comes out is the generator's choice; whatever it made is checked as
/// `native_identity_from` says.
pub fn generate_native_tls_identity() -> (r: Result<NativeTlsIdentity, QuicEndpointError>)
    ensures
        r matches Err(e) ==> e == QuicEndpointError::Certificate,
        r matches Ok(id) ==> 0 < id.certificate_der@.len() <= MAX_CERTIFICATE_LEN
            && id.private_key_x963@.len() == NATIVE_PRIVATE_KEY_LEN && p256_secret_accepted(
            id.private_key_x963@.subrange(65, 97),
        ) && id.private_key_x963@ == x963_key_of(id.private_key_x963@.subrange(65, 97))
            && id.private_key_x963@[0] == 4,
{
    let (certificate_der, pkcs8) = match generate_self_signed("halo.invalid") {
        Some(made) => made,
        None => return Err(QuicEndpointError::Certificate),
    };
    let r = native_identity_from(certificate_der, pkcs8.as_slice());
    proof {
        if r is Ok {
            let secret = pkcs8_p256_secret(pkcs8@)->0;
            assert(r->Ok_0.private_key_x963@.subrange(65, 97) =~= secret);
        }
    }
    r
}

} // verus!

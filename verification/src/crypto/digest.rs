//! SHA-256, computed by the `sha2` crate, at once or as bytes stream in.

use vstd::prelude::*;

use sha2::{Digest, Sha256};

verus! {

/// The SHA-256 digest of `data`, as `sha2::Sha256` computes it.
pub uninterp spec fn sha256(data: Seq<u8>) -> Seq<u8>;

/// The 32 bytes of the SHA-256 digest of `data`.
pub open spec fn digest32(data: Seq<u8>) -> Seq<u8> {
    Seq::new(32, |i: int| sha256(data)[i])
}

/// Calls `sha2::Sha256::digest`. Its result is trusted to be the named
/// digest of the input bytes; that the digest has 32 bytes is what the
/// output type `[u8; 32]` already says.
#[verifier::external_body]
pub fn sha256_digest(data: &[u8]) -> (r: [u8; 32])
    ensures
        r@ == sha256(data@),
        r@ == digest32(data@),
{
    Sha256::digest(data).into()
}

/// An incremental SHA-256 computation (`sha2::Sha256`), so that a file can
/// be hashed as it streams from disk or the network.
#[verifier::external_body]
pub struct ContentHasher {
    inner: Sha256,
}

/// The bytes a hasher has absorbed so far, in order.
pub uninterp spec fn absorbed(h: ContentHasher) -> Seq<u8>;

/// Calls `Sha256::new`; a fresh hasher has absorbed nothing.
#[verifier::external_body]
fn hasher_new() -> (r: ContentHasher)
    ensures
        absorbed(r) == Seq::<u8>::empty(),
{
    ContentHasher { inner: Sha256::new() }
}

/// Calls `Digest::update`, which appends the bytes to what was absorbed.
#[verifier::external_body]
fn hasher_update(h: &mut ContentHasher, bytes: &[u8])
    ensures
        absorbed(*final(h)) == absorbed(*old(h)) + bytes@,
{
    h.inner.update(bytes);
}

/// Calls `Digest::finalize`, whose result is the SHA-256 digest of all the
/// bytes absorbed, the same as hashing them at once.
#[verifier::external_body]
fn hasher_finalize(h: ContentHasher) -> (r: [u8; 32])
    ensures
        r@ == sha256(absorbed(h)),
        r@ == digest32(absorbed(h)),
{
    h.inner.finalize().into()
}

impl ContentHasher {
    pub fn new() -> (r: Self)
        ensures
            absorbed(r) == Seq::<u8>::empty(),
    {
        hasher_new()
    }

    /// Absorbs the next bytes.
    pub fn update(&mut self, bytes: &[u8])
        ensures
            absorbed(*final(self)) == absorbed(*old(self)) + bytes@,
    {
        hasher_update(self, bytes)
    }

    /// The digest of everything absorbed.
    pub fn finalize(self) -> (r: [u8; 32])
        ensures
            r@ == digest32(absorbed(self)),
    {
        hasher_finalize(self)
    }
}

} // verus!

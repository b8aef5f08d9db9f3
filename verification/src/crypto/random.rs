//! Operating-system randomness through the `getrandom` crate.

use vstd::prelude::*;

verus! {

/// Calls `getrandom::fill` on a fresh array. The bytes are random; `None`
/// when the operating system generator reports a failure.
#[verifier::external_body]
pub fn random_array<const N: usize>() -> (r: Option<[u8; N]>) {
    let mut bytes = [0u8; N];
    getrandom::fill(&mut bytes).ok().map(|()| bytes)
}

} // verus!

//! Randomness from the operating system.

use vstd::prelude::*;

verus! {

/// `n` bytes from `rand::rngs::OsRng::fill_bytes`. Only the length is
/// promised; the contents are random.
#[verifier::external_body]
pub(crate) fn random_bytes(n: usize) -> (r: Vec<u8>)
    ensures
        r@.len() == n,
{
    let mut v = vec![0u8; n];
    rand::RngCore::fill_bytes(&mut rand::rngs::OsRng, &mut v);
    v
}

/// 32 bytes from `rand::RngCore::fill_bytes` on the thread-local generator
/// `rand::thread_rng`. Nothing is promised of the contents.
#[verifier::external_body]
pub(crate) fn random_array32() -> [u8; 32] {
    let mut a = [0u8; 32];
    rand::RngCore::fill_bytes(&mut rand::thread_rng(), &mut a);
    a
}

/// A number from `rand::random::<u64>`. Nothing is promised of it.
#[verifier::external_body]
pub(crate) fn random_u64() -> u64 {
    rand::random::<u64>()
}

} // verus!

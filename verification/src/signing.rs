//! Ed25519 signatures (from `ring`).

use vstd::prelude::*;

verus! {

/// The Ed25519 signature that the key with the 32-byte `seed` makes over `msg`.
pub uninterp spec fn ed25519_signature(seed: Seq<u8>, msg: Seq<u8>) -> Seq<u8>;

/// The Ed25519 public key of the key pair made from the 32-byte `seed`.
pub uninterp spec fn ed25519_public(seed: Seq<u8>) -> Seq<u8>;

/// Whether `sig` is a valid Ed25519 signature of `msg` under the public key `public_key`.
pub uninterp spec fn ed25519_valid(public_key: Seq<u8>, msg: Seq<u8>, sig: Seq<u8>) -> bool;

/// `ring::signature::Ed25519KeyPair::from_seed_unchecked(seed)` then `sign(msg)`.
/// A seed that is not 32 bytes long is rejected (the error's text is handed
/// on); otherwise the signature is a function of the seed and the message
/// (Ed25519 signing is deterministic), and it is valid for the message under
/// the public key of the same seed.
#[verifier::external_body]
pub(crate) fn ed25519_sign(seed: &[u8], msg: &[u8]) -> (r: Result<Vec<u8>, String>)
    ensures
        r is Ok <==> seed@.len() == 32,
        r matches Ok(s) ==> s@ == ed25519_signature(seed@, msg@),
        r matches Ok(s) ==> ed25519_valid(ed25519_public(seed@), msg@, s@),
{
    match ring::signature::Ed25519KeyPair::from_seed_unchecked(seed) {
        Ok(kp) => Ok(kp.sign(msg).as_ref().to_vec()),
        Err(e) => Err(e.to_string()),
    }
}

/// `ring::signature::Ed25519KeyPair::from_seed_unchecked(seed)` then
/// `public_key()`: refused for a seed that is not 32 bytes long; otherwise the
/// 32-byte public key, a function of the seed.
#[verifier::external_body]
fn ed25519_public_key(seed: &[u8]) -> (r: Result<Vec<u8>, String>)
    ensures
        r is Ok <==> seed@.len() == 32,
        r matches Ok(pk) ==> pk@ == ed25519_public(seed@) && pk@.len() == 32,
{
    match ring::signature::Ed25519KeyPair::from_seed_unchecked(seed) {
        Ok(kp) => Ok(ring::signature::KeyPair::public_key(&kp).as_ref().to_vec()),
        Err(e) => Err(e.to_string()),
    }
}

/// The public key that verifies what the 32-byte seed `seed` signs; `None`
/// for a seed of another length.
pub fn public_key_of_seed(seed: &[u8]) -> (r: Option<Vec<u8>>)
    ensures
        r is Some <==> seed@.len() == 32,
        r matches Some(pk) ==> pk@ == ed25519_public(seed@) && pk@.len() == 32,
{
    match ed25519_public_key(seed) {
        Ok(pk) => Some(pk),
        Err(_) => None,
    }
}

/// `ring::signature::UnparsedPublicKey::new(&ED25519, public_key).verify(msg, sig)`:
/// `Ok` exactly when the signature is valid; a function of the three byte strings.
#[verifier::external_body]
pub(crate) fn ed25519_verify(public_key: &[u8], msg: &[u8], sig: &[u8]) -> (r: Result<(), String>)
    ensures
        r is Ok <==> ed25519_valid(public_key@, msg@, sig@),
{
    let key = ring::signature::UnparsedPublicKey::new(&ring::signature::ED25519, public_key);
    match key.verify(msg, sig) {
        Ok(()) => Ok(()),
        Err(e) => Err(e.to_string()),
    }
}

} // verus!

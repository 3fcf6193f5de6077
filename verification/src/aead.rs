//! ChaCha20-Poly1305 sealing and opening (from `ring`).

use vstd::prelude::*;

verus! {

/// Largest input that ChaCha20-Poly1305 seals, in bytes.
pub open spec fn aead_max_input() -> nat {
    274877906880
}

/// The ciphertext with its 16-byte tag that ChaCha20-Poly1305 makes of
/// `data` under `key` and `nonce`, with empty associated data.
pub uninterp spec fn chacha_sealed(key: Seq<u8>, nonce: Seq<u8>, data: Seq<u8>) -> Seq<u8>;

/// The plaintext that ChaCha20-Poly1305 opens from `data` (ciphertext and
/// tag) under `key` and `nonce`, or `None` where the tag does not verify.
pub uninterp spec fn chacha_opened(key: Seq<u8>, nonce: Seq<u8>, data: Seq<u8>) -> Option<Seq<u8>>;

/// `ring::aead::LessSafeKey::seal_in_place_append_tag` with a
/// `CHACHA20_POLY1305` key and no associated data. It refuses only inputs
/// longer than `aead_max_input()`; the output is a function of key, nonce and
/// data, and is the data's length plus the 16-byte tag.
#[verifier::external_body]
pub(crate) fn aead_seal(key: &[u8; 32], nonce: &[u8; 12], data: &[u8]) -> (r: Result<Vec<u8>, String>)
    ensures
        r is Ok <==> data@.len() <= aead_max_input(),
        r matches Ok(c) ==> c@ == chacha_sealed(key@, nonce@, data@) && c@.len() == data@.len() + 16,
{
    let unbound = match ring::aead::UnboundKey::new(&ring::aead::CHACHA20_POLY1305, key) {
        Ok(k) => k,
        Err(e) => return Err(e.to_string()),
    };
    let sealing = ring::aead::LessSafeKey::new(unbound);
    let mut in_out = data.to_vec();
    match sealing.seal_in_place_append_tag(ring::aead::Nonce::assume_unique_for_key(*nonce), ring::aead::Aad::empty(), &mut in_out) {
        Ok(()) => Ok(in_out),
        Err(e) => Err(e.to_string()),
    }
}

/// `ring::aead::LessSafeKey::open_in_place` with a `CHACHA20_POLY1305` key
/// and no associated data, keeping the plaintext. The result is a function
/// of key, nonce and data; as authenticated encryption, what was sealed
/// under the same key and nonce opens to the sealed plaintext.
#[verifier::external_body]
pub(crate) fn aead_open(key: &[u8; 32], nonce: &[u8; 12], data: &[u8]) -> (r: Result<Vec<u8>, String>)
    ensures
        r is Ok <==> chacha_opened(key@, nonce@, data@) is Some,
        r matches Ok(p) ==> p@ == chacha_opened(key@, nonce@, data@)->0,
        forall|x: Seq<u8>| #[trigger] chacha_sealed(key@, nonce@, x) == data@ ==> r is Ok && r->Ok_0@ == x,
{
    let unbound = match ring::aead::UnboundKey::new(&ring::aead::CHACHA20_POLY1305, key) {
        Ok(k) => k,
        Err(e) => return Err(e.to_string()),
    };
    let opening = ring::aead::LessSafeKey::new(unbound);
    let mut in_out = data.to_vec();
    match opening.open_in_place(ring::aead::Nonce::assume_unique_for_key(*nonce), ring::aead::Aad::empty(), &mut in_out) {
        Ok(plain) => Ok(plain.to_vec()),
        Err(e) => Err(e.to_string()),
    }
}

} // verus!

//! Obfuscation of peer-to-peer traffic: every payload is sealed with
//! ChaCha20-Poly1305 (from the `chacha20poly1305` crate) under the node's
//! obfuscation key and a fresh random nonce, which travels in front of the
//! ciphertext.

use vstd::prelude::*;
use chacha20poly1305::aead::{Aead, KeyInit};

verus! {

/// Longest plaintext that the cipher seals: 2^32 - 1 blocks of 64 bytes.
pub open spec fn cipher_max_input() -> nat {
    274877906880
}

/// The ciphertext with its 16-byte tag that `ChaCha20Poly1305::encrypt`
/// makes of `data` under `key` and `nonce`, without associated data.
pub uninterp spec fn cipher_encrypted(key: Seq<u8>, nonce: Seq<u8>, data: Seq<u8>) -> Seq<u8>;

/// The plaintext that `ChaCha20Poly1305::decrypt` recovers from `data`
/// (ciphertext and tag) under `key` and `nonce`, or `None` where the tag
/// does not verify.
pub uninterp spec fn cipher_decrypted(key: Seq<u8>, nonce: Seq<u8>, data: Seq<u8>) -> Option<Seq<u8>>;

/// `ChaCha20Poly1305::new(key).encrypt(nonce, data)`: refuses only a
/// plaintext of at least `cipher_max_input()` bytes; the ciphertext is a
/// function of key, nonce and data, 16 bytes longer than the data.
#[verifier::external_body]
fn cipher_encrypt(key: &[u8; 32], nonce: &[u8; 12], data: &[u8]) -> (r: Result<Vec<u8>, String>)
    ensures
        r is Ok <==> data@.len() < cipher_max_input(),
        r matches Ok(c) ==> c@ == cipher_encrypted(key@, nonce@, data@) && c@.len() == data@.len() + 16,
{
    let cipher = chacha20poly1305::ChaCha20Poly1305::new(chacha20poly1305::Key::from_slice(key));
    match cipher.encrypt(chacha20poly1305::Nonce::from_slice(nonce), data) {
        Ok(c) => Ok(c),
        Err(e) => Err(e.to_string()),
    }
}

/// `ChaCha20Poly1305::new(key).decrypt(nonce, data)`: the result is a
/// function of key, nonce and data; as authenticated encryption, what was
/// encrypted under the same key and nonce decrypts to its plaintext.
#[verifier::external_body]
fn cipher_decrypt(key: &[u8; 32], nonce: &[u8; 12], data: &[u8]) -> (r: Result<Vec<u8>, String>)
    ensures
        r is Ok <==> cipher_decrypted(key@, nonce@, data@) is Some,
        r matches Ok(p) ==> p@ == cipher_decrypted(key@, nonce@, data@)->0,
        forall|x: Seq<u8>| #[trigger] cipher_encrypted(key@, nonce@, x) == data@ ==> r is Ok && r->Ok_0@ == x,
{
    let cipher = chacha20poly1305::ChaCha20Poly1305::new(chacha20poly1305::Key::from_slice(key));
    match cipher.decrypt(chacha20poly1305::Nonce::from_slice(nonce), data) {
        Ok(p) => Ok(p),
        Err(e) => Err(e.to_string()),
    }
}

/// 12 bytes from `rand::RngCore::fill_bytes` on `rand::thread_rng()`.
/// Nothing is promised of them.
#[verifier::external_body]
fn random_nonce() -> [u8; 12] {
    let mut nonce = [0u8; 12];
    rand::RngCore::fill_bytes(&mut rand::thread_rng(), &mut nonce);
    nonce
}

/// The obfuscated form of `data` under `key` with `nonce`: the nonce, then
/// the ciphertext.
pub open spec fn obfuscated(key: Seq<u8>, nonce: Seq<u8>, data: Seq<u8>) -> Seq<u8> {
    nonce + cipher_encrypted(key, nonce, data)
}

/// Seals and opens traffic under the node's obfuscation key.
#[derive(Debug, Clone, Copy)]
pub struct TrafficCipher {
    /// ChaCha20-Poly1305 key
    pub key: [u8; 32],
}

fn append(v: &mut Vec<u8>, b: &[u8])
    ensures
        final(v)@ == old(v)@ + b@,
{
    let mut i: usize = 0;
    while i < b.len()
        invariant
            0 <= i <= b@.len(),
            v@ == old(v)@ + b@.take(i as int),
        decreases b@.len() - i,
    {
        v.push(b[i]);
        i = i + 1;
        assert(v@ =~= old(v)@ + b@.take(i as int));
    }
    assert(b@.take(i as int) =~= b@);
}

impl TrafficCipher {
    /// A cipher with the given key.
    pub fn new(key: [u8; 32]) -> (r: TrafficCipher)
        ensures
            r.key == key,
    {
        TrafficCipher { key }
    }

    /// Obfuscates `data`: a fresh random nonce followed by the ciphertext of
    /// `data` under the key and that nonce. Only a plaintext too long for the
    /// cipher is refused.
    pub fn obfuscate_traffic(&self, data: &[u8]) -> (r: Result<Vec<u8>, String>)
        ensures
            r is Ok <==> data@.len() < cipher_max_input(),
            r matches Ok(out) ==> out@.len() == data@.len() + 28 && exists|nonce: Seq<u8>|
                nonce.len() == 12 && #[trigger] obfuscated(self.key@, nonce, data@) == out@,
            r matches Err(m) ==> m@.len() >= 18 && m@.subrange(0, 18) == "Encryption error: "@,
    {
        let nonce = random_nonce();
        match cipher_encrypt(&self.key, &nonce, data) {
            Ok(c) => {
                let mut out: Vec<u8> = Vec::new();
                append(&mut out, &nonce);
                append(&mut out, c.as_slice());
                assert(out@ == obfuscated(self.key@, nonce@, data@));
                Ok(out)
            },
            Err(e) => {
                let mut m = String::from_str("Encryption error: ");
                m.append(e.as_str());
                proof {
                    reveal_strlit("Encryption error: ");
                    assert(m@.subrange(0, 18) =~= "Encryption error: "@);
                }
                Err(m)
            },
        }
    }

    /// Reads obfuscated traffic: the first 12 bytes are the nonce, the rest
    /// the ciphertext, opened under the key. Data shorter than a nonce is
    /// refused, as is a ciphertext that does not verify. What
    /// `obfuscate_traffic` produced opens to the original data.
    pub fn deobfuscate_traffic(&self, data: &[u8]) -> (r: Result<Vec<u8>, String>)
        ensures
            data@.len() < 12 ==> (r matches Err(m) && m@ == "Data too short"@),
            data@.len() >= 12 ==> {
                let nonce = data@.subrange(0, 12);
                let sealed = data@.subrange(12, data@.len() as int);
                &&& r is Ok <==> cipher_decrypted(self.key@, nonce, sealed) is Some
                &&& r matches Ok(p) ==> p@ == cipher_decrypted(self.key@, nonce, sealed)->0
                &&& r matches Err(m) ==> m@.len() >= 18 && m@.subrange(0, 18) == "Decryption error: "@
            },
            forall|nonce: Seq<u8>, x: Seq<u8>| nonce.len() == 12 && #[trigger] obfuscated(self.key@, nonce, x) == data@
                ==> r is Ok && r->Ok_0@ == x,
    {
        if data.len() < 12 {
            return Err(String::from_str("Data too short"));
        }
        let mut nonce = [0u8; 12];
        let mut i: usize = 0;
        while i < 12
            invariant
                0 <= i <= 12,
                data@.len() >= 12,
                forall|j: int| 0 <= j < i ==> nonce@[j] == data@[j],
            decreases 12 - i,
        {
            nonce.set(i, data[i]);
            i = i + 1;
        }
        assert(nonce@ =~= data@.subrange(0, 12));
        let mut sealed: Vec<u8> = Vec::new();
        let mut k: usize = 12;
        while k < data.len()
            invariant
                12 <= k <= data@.len(),
                sealed@ == data@.subrange(12, k as int),
            decreases data@.len() - k,
        {
            sealed.push(data[k]);
            k = k + 1;
            assert(sealed@ =~= data@.subrange(12, k as int));
        }
        proof {
            assert forall|n: Seq<u8>, x: Seq<u8>| n.len() == 12 && #[trigger] obfuscated(self.key@, n, x) == data@
                implies cipher_encrypted(self.key@, nonce@, x) == sealed@ by {
                let o = obfuscated(self.key@, n, x);
                assert(n =~= o.subrange(0, 12));
                assert(cipher_encrypted(self.key@, n, x) =~= o.subrange(12, o.len() as int));
            }
        }
        match cipher_decrypt(&self.key, &nonce, sealed.as_slice()) {
            Ok(p) => Ok(p),
            Err(e) => {
                let mut m = String::from_str("Decryption error: ");
                m.append(e.as_str());
                proof {
                    reveal_strlit("Decryption error: ");
                    assert(m@.subrange(0, 18) =~= "Decryption error: "@);
                }
                Err(m)
            },
        }
    }
}

} // verus!

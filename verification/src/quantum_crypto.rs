//! Key material for quantum-resistant key exchange (ML-KEM sized keys,
//! ciphertexts and shared secrets), and the derivation and combination of
//! symmetric keys from shared secrets.
//!
//! Key material is drawn from the operating system's random source in the
//! sizes of the chosen ML-KEM level.

use vstd::prelude::*;
use crate::entropy::random_bytes;
use crate::types::NetworkError;

verus! {

/// ML-KEM security levels.
#[derive(Debug, Clone, Copy, PartialEq, Eq, Structural)]
pub enum MlKemSecurityLevel {
    /// ML-KEM-512 (category 1)
    Level512,
    /// ML-KEM-768 (category 3)
    Level768,
    /// ML-KEM-1024 (category 5)
    Level1024,
}

impl Default for MlKemSecurityLevel {
    /// ML-KEM-768.
    fn default() -> (r: Self)
        ensures
            r == MlKemSecurityLevel::Level768,
    {
        MlKemSecurityLevel::Level768
    }
}

/// An ML-KEM public key.
#[derive(Debug, Clone)]
pub struct MlKemPublicKey {
    /// Key material
    pub key_data: Vec<u8>,
    /// Security level
    pub security_level: MlKemSecurityLevel,
}

/// An ML-KEM secret key.
#[derive(Clone)]
pub struct MlKemSecretKey {
    /// Key material
    pub key_data: Vec<u8>,
    /// Security level
    pub security_level: MlKemSecurityLevel,
}

/// An ML-KEM ciphertext that encapsulates a shared secret.
#[derive(Debug, Clone)]
pub struct MlKemCiphertext {
    /// Ciphertext bytes
    pub ciphertext: Vec<u8>,
    /// Security level
    pub security_level: MlKemSecurityLevel,
}

/// A shared secret.
#[derive(Clone)]
pub struct SharedSecret {
    /// Secret bytes
    pub secret: Vec<u8>,
}

/// Public and secret key sizes of a level, in bytes.
pub open spec fn key_sizes(level: MlKemSecurityLevel) -> (nat, nat) {
    match level {
        MlKemSecurityLevel::Level512 => (800, 1632),
        MlKemSecurityLevel::Level768 => (1184, 2400),
        MlKemSecurityLevel::Level1024 => (1568, 3168),
    }
}

/// Ciphertext and shared secret sizes of a level, in bytes.
pub open spec fn encapsulation_sizes(level: MlKemSecurityLevel) -> (nat, nat) {
    match level {
        MlKemSecurityLevel::Level512 => (768, 32),
        MlKemSecurityLevel::Level768 => (1088, 32),
        MlKemSecurityLevel::Level1024 => (1568, 32),
    }
}

/// The 32-byte ChaCha20-Poly1305 key of a secret: its first 32 bytes,
/// padded with zeros.
pub open spec fn chacha20_key(secret: Seq<u8>) -> Seq<u8> {
    Seq::new(32, |i: int| if i < secret.len() { secret[i] } else { 0u8 })
}

impl SharedSecret {
    /// The secret bytes.
    pub fn as_bytes(&self) -> (r: &[u8])
        ensures
            r@ == self.secret@,
    {
        self.secret.as_slice()
    }

    /// The secret as a 32-byte key; see `chacha20_key`.
    pub fn to_chacha20_key(&self) -> (r: [u8; 32])
        ensures
            r@ == chacha20_key(self.secret@),
    {
        let mut key = [0u8; 32];
        let len = if self.secret.len() < 32 { self.secret.len() } else { 32 };
        let mut i: usize = 0;
        while i < len
            invariant
                len <= 32,
                len <= self.secret@.len(),
                len == 32 || len == self.secret@.len(),
                0 <= i <= len,
                forall|j: int| 0 <= j < i ==> key@[j] == self.secret@[j],
                forall|j: int| i <= j < 32 ==> key@[j] == 0u8,
            decreases len - i,
        {
            key.set(i, self.secret[i]);
            i = i + 1;
        }
        assert(key@ =~= chacha20_key(self.secret@));
        key
    }
}

/// What `std::collections::hash_map::DefaultHasher::new()` yields after
/// hashing a byte vector (its length, then its bytes).
pub uninterp spec fn default_hash_of_bytes(data: Seq<u8>) -> u64;

/// `DefaultHasher::new()`, `Hash::hash` of the vector, `Hasher::finish`. A
/// freshly made `DefaultHasher` is documented to give the same output as any
/// other one made with `new`, so the result is a function of the bytes for
/// one build of std on one target. The vector's length is hashed as a
/// `usize`, in the target's width and byte order, and the algorithm may
/// change between releases of std, so the value is not stable across them.
#[verifier::external_body]
fn hash_bytes(data: &Vec<u8>) -> (r: u64)
    ensures
        r == default_hash_of_bytes(data@),
{
    let mut h = std::collections::hash_map::DefaultHasher::new();
    std::hash::Hash::hash(data, &mut h);
    std::hash::Hasher::finish(&h)
}

/// What a fresh `DefaultHasher` yields after hashing a secret (as a vector),
/// then `info` (as a slice), then the index `i` (as a `usize`).
pub uninterp spec fn default_hash_of_key_input(secret: Seq<u8>, info: Seq<u8>, i: usize) -> u64;

/// `DefaultHasher::new()`, then `Hash::hash` of `secret`, of `info` and of
/// `i`, then `Hasher::finish`; a function of the three values for one build
/// of std on one target (lengths and `i` are hashed as `usize`, in the
/// target's width and byte order).
#[verifier::external_body]
fn hash_key_input(secret: &Vec<u8>, info: &[u8], i: usize) -> (r: u64)
    ensures
        r == default_hash_of_key_input(secret@, info@, i),
{
    let mut h = std::collections::hash_map::DefaultHasher::new();
    std::hash::Hash::hash(secret, &mut h);
    std::hash::Hash::hash(info, &mut h);
    std::hash::Hash::hash(&i, &mut h);
    std::hash::Hasher::finish(&h)
}

/// Byte `j` of a fill with a 64-bit hash repeated: byte `j % 8` of `h`,
/// least significant first.
pub open spec fn hash_fill_byte(h: u64, j: int) -> u8 {
    ((h >> (8 * (j % 8)) as u64) & 0xff) as u8
}

/// `n` bytes filled with the bytes of `h`, repeated.
pub open spec fn hash_fill(h: u64, n: nat) -> Seq<u8> {
    Seq::new(n, |j: int| hash_fill_byte(h, j))
}

fn fill_with_hash(h: u64, n: usize) -> (r: Vec<u8>)
    ensures
        r@ == hash_fill(h, n as nat),
{
    let mut v: Vec<u8> = Vec::new();
    let mut j: usize = 0;
    while j < n
        invariant
            0 <= j <= n,
            v@.len() == j,
            forall|k: int| 0 <= k < j ==> v@[k] == hash_fill_byte(h, k),
        decreases n - j,
    {
        let shift: u64 = 8 * ((j % 8) as u64);
        let b = ((h >> shift) & 0xff) as u8;
        v.push(b);
        j = j + 1;
    }
    assert(v@ =~= hash_fill(h, n as nat));
    v
}

/// ML-KEM key encapsulation at a fixed security level.
#[derive(Debug, Clone, Copy)]
pub struct MlKem {
    /// Security level
    pub security_level: MlKemSecurityLevel,
}

/// The message of a security level mismatch.
pub open spec fn level_mismatch_text() -> Seq<char> {
    "Security level mismatch"@
}

fn level_mismatch() -> (r: NetworkError)
    ensures
        r matches NetworkError::EncryptionError(m) && m@ == level_mismatch_text(),
{
    NetworkError::EncryptionError(String::from_str("Security level mismatch"))
}

impl MlKem {
    /// ML-KEM at the given level.
    pub fn new(security_level: MlKemSecurityLevel) -> (r: MlKem)
        ensures
            r.security_level == security_level,
    {
        MlKem { security_level }
    }

    /// ML-KEM at the default level (768).
    pub fn new_default() -> (r: MlKem)
        ensures
            r.security_level == MlKemSecurityLevel::Level768,
    {
        MlKem::new(MlKemSecurityLevel::default())
    }

    /// Public and secret key sizes of the level.
    pub fn get_key_sizes(&self) -> (r: (usize, usize))
        ensures
            r.0 == key_sizes(self.security_level).0,
            r.1 == key_sizes(self.security_level).1,
    {
        match self.security_level {
            MlKemSecurityLevel::Level512 => (800, 1632),
            MlKemSecurityLevel::Level768 => (1184, 2400),
            MlKemSecurityLevel::Level1024 => (1568, 3168),
        }
    }

    /// Ciphertext and shared secret sizes of the level.
    pub fn get_encapsulation_sizes(&self) -> (r: (usize, usize))
        ensures
            r.0 == encapsulation_sizes(self.security_level).0,
            r.1 == encapsulation_sizes(self.security_level).1,
    {
        match self.security_level {
            MlKemSecurityLevel::Level512 => (768, 32),
            MlKemSecurityLevel::Level768 => (1088, 32),
            MlKemSecurityLevel::Level1024 => (1568, 32),
        }
    }

    /// Shared secret size: 32 bytes at every level.
    pub fn get_shared_secret_size(&self) -> (r: usize)
        ensures
            r == 32,
    {
        32
    }

    /// A fresh key pair of the level, with random key material of the
    /// level's sizes.
    pub fn generate_keypair(&mut self) -> (r: Result<(MlKemPublicKey, MlKemSecretKey), NetworkError>)
        ensures
            *final(self) == *old(self),
            r is Ok,
            r matches Ok(kp) ==> {
                &&& kp.0.security_level == old(self).security_level
                &&& kp.1.security_level == old(self).security_level
                &&& kp.0.key_data@.len() == key_sizes(old(self).security_level).0
                &&& kp.1.key_data@.len() == key_sizes(old(self).security_level).1
            },
    {
        let (public_size, secret_size) = self.get_key_sizes();
        let public_key = MlKemPublicKey { key_data: random_bytes(public_size), security_level: self.security_level };
        let secret_key = MlKemSecretKey { key_data: random_bytes(secret_size), security_level: self.security_level };
        Ok((public_key, secret_key))
    }

    /// A ciphertext and shared secret for `public_key`, of the level's
    /// sizes; a key of another level is refused.
    pub fn encapsulate(&mut self, public_key: &MlKemPublicKey) -> (r: Result<(MlKemCiphertext, SharedSecret), NetworkError>)
        ensures
            *final(self) == *old(self),
            public_key.security_level != old(self).security_level ==> (r matches Err(NetworkError::EncryptionError(m))
                && m@ == level_mismatch_text()),
            public_key.security_level == old(self).security_level ==> (r matches Ok(p) && {
                &&& p.0.security_level == old(self).security_level
                &&& p.0.ciphertext@.len() == encapsulation_sizes(old(self).security_level).0
                &&& p.1.secret@.len() == encapsulation_sizes(old(self).security_level).1
            }),
    {
        if public_key.security_level != self.security_level {
            return Err(level_mismatch());
        }
        let (ciphertext_size, secret_size) = self.get_encapsulation_sizes();
        let ciphertext = MlKemCiphertext { ciphertext: random_bytes(ciphertext_size), security_level: self.security_level };
        let shared = SharedSecret { secret: random_bytes(secret_size) };
        Ok((ciphertext, shared))
    }

    /// The shared secret of a ciphertext: 32 bytes filled with the bytes of
    /// the ciphertext's `DefaultHasher` hash; a key or ciphertext of another
    /// level is refused.
    pub fn decapsulate(&self, secret_key: &MlKemSecretKey, ciphertext: &MlKemCiphertext) -> (r: Result<SharedSecret, NetworkError>)
        ensures
            secret_key.security_level != self.security_level || ciphertext.security_level != self.security_level
                ==> (r matches Err(NetworkError::EncryptionError(m)) && m@ == level_mismatch_text()),
            secret_key.security_level == self.security_level && ciphertext.security_level == self.security_level
                ==> (r matches Ok(s) && s.secret@ == hash_fill(default_hash_of_bytes(ciphertext.ciphertext@), 32)),
    {
        if secret_key.security_level != self.security_level || ciphertext.security_level != self.security_level {
            return Err(level_mismatch());
        }
        let size = self.get_shared_secret_size();
        let h = hash_bytes(&ciphertext.ciphertext);
        Ok(SharedSecret { secret: fill_with_hash(h, size) })
    }
}

/// Key exchange state of one side of a connection.
pub struct QuantumKeyExchange {
    /// The key encapsulation mechanism
    pub ml_kem: MlKem,
    /// Our key pair, once initialized
    pub our_keypair: Option<(MlKemPublicKey, MlKemSecretKey)>,
}

impl QuantumKeyExchange {
    /// An uninitialized exchange at the default level.
    pub fn new() -> (r: QuantumKeyExchange)
        ensures
            r.ml_kem.security_level == MlKemSecurityLevel::Level768,
            r.our_keypair is None,
    {
        QuantumKeyExchange { ml_kem: MlKem::new_default(), our_keypair: None }
    }

    /// An uninitialized exchange at the given level.
    pub fn with_security_level(level: MlKemSecurityLevel) -> (r: QuantumKeyExchange)
        ensures
            r.ml_kem.security_level == level,
            r.our_keypair is None,
    {
        QuantumKeyExchange { ml_kem: MlKem::new(level), our_keypair: None }
    }

    /// Generates our key pair and returns its public key.
    pub fn initialize(&mut self) -> (r: Result<MlKemPublicKey, NetworkError>)
        ensures
            final(self).ml_kem == old(self).ml_kem,
            r is Ok,
            final(self).our_keypair matches Some(kp) && r matches Ok(pk) && pk.key_data@ == kp.0.key_data@
                && pk.security_level == kp.0.security_level && kp.0.security_level == old(self).ml_kem.security_level
                && kp.1.security_level == old(self).ml_kem.security_level
                && kp.0.key_data@.len() == key_sizes(old(self).ml_kem.security_level).0
                && kp.1.key_data@.len() == key_sizes(old(self).ml_kem.security_level).1,
    {
        match self.ml_kem.generate_keypair() {
            Ok((public_key, secret_key)) => {
                let copy = MlKemPublicKey { key_data: copy_bytes(&public_key.key_data), security_level: public_key.security_level };
                self.our_keypair = Some((public_key, secret_key));
                Ok(copy)
            },
            Err(e) => Err(e),
        }
    }

    /// Starts an exchange with a peer: encapsulates a fresh secret for its
    /// public key; see `MlKem::encapsulate`.
    pub fn initiate_exchange(&mut self, peer_public_key: &MlKemPublicKey) -> (r: Result<(MlKemCiphertext, SharedSecret), NetworkError>)
        ensures
            final(self).ml_kem == old(self).ml_kem,
            peer_public_key.security_level != old(self).ml_kem.security_level ==> (r matches Err(NetworkError::EncryptionError(m))
                && m@ == level_mismatch_text()),
            peer_public_key.security_level == old(self).ml_kem.security_level ==> (r matches Ok(p)
                && p.0.ciphertext@.len() == encapsulation_sizes(old(self).ml_kem.security_level).0
                && p.1.secret@.len() == 32),
    {
        self.ml_kem.encapsulate(peer_public_key)
    }

    /// Completes an exchange: decapsulates the peer's ciphertext with our
    /// secret key. Without a key pair the exchange is refused.
    pub fn complete_exchange(&self, ciphertext: &MlKemCiphertext) -> (r: Result<SharedSecret, NetworkError>)
        ensures
            self.our_keypair is None ==> (r matches Err(NetworkError::EncryptionError(m))
                && m@ == "Key exchange not initialized"@),
            self.our_keypair matches Some(kp) ==> {
                &&& (kp.1.security_level != self.ml_kem.security_level || ciphertext.security_level != self.ml_kem.security_level)
                    ==> (r matches Err(NetworkError::EncryptionError(m)) && m@ == level_mismatch_text())
                &&& (kp.1.security_level == self.ml_kem.security_level && ciphertext.security_level == self.ml_kem.security_level)
                    ==> (r matches Ok(s) && s.secret@ == hash_fill(default_hash_of_bytes(ciphertext.ciphertext@), 32))
            },
    {
        match &self.our_keypair {
            Some((_, secret_key)) => self.ml_kem.decapsulate(secret_key, ciphertext),
            None => Err(NetworkError::EncryptionError(String::from_str("Key exchange not initialized"))),
        }
    }

    /// Our public key, once initialized.
    pub fn get_public_key(&self) -> (r: Option<&MlKemPublicKey>)
        ensures
            self.our_keypair is None ==> r is None,
            self.our_keypair matches Some(kp) ==> (r matches Some(pk) && *pk == kp.0),
    {
        match &self.our_keypair {
            Some((pk, _)) => Some(pk),
            None => None,
        }
    }
}

impl Default for QuantumKeyExchange {
    fn default() -> (r: Self)
        ensures
            r.ml_kem.security_level == MlKemSecurityLevel::Level768,
            r.our_keypair is None,
    {
        QuantumKeyExchange::new()
    }
}

fn copy_bytes(v: &Vec<u8>) -> (r: Vec<u8>)
    ensures
        r@ == v@,
{
    let mut out: Vec<u8> = Vec::new();
    let mut i: usize = 0;
    while i < v.len()
        invariant
            0 <= i <= v@.len(),
            out@ == v@.take(i as int),
        decreases v@.len() - i,
    {
        out.push(v[i]);
        i = i + 1;
        assert(out@ =~= v@.take(i as int));
    }
    assert(v@.take(i as int) =~= v@);
    out
}

/// The `i`-th derived key: 32 bytes filled with the `DefaultHasher` hash of
/// the secret, the info and `i`.
pub open spec fn derived_key(secret: Seq<u8>, info: Seq<u8>, i: usize) -> Seq<u8> {
    hash_fill(default_hash_of_key_input(secret, info, i), 32)
}

/// Derives `key_count` 32-byte keys from a shared secret and `info`; see
/// `derived_key`.
pub fn derive_keys(shared_secret: &SharedSecret, info: &[u8], key_count: usize) -> (r: Vec<[u8; 32]>)
    ensures
        r@.len() == key_count,
        forall|i: int| 0 <= i < key_count ==> (#[trigger] r@[i])@ == derived_key(shared_secret.secret@, info@, i as usize),
{
    let mut keys: Vec<[u8; 32]> = Vec::new();
    let mut i: usize = 0;
    while i < key_count
        invariant
            0 <= i <= key_count,
            keys@.len() == i,
            forall|k: int| 0 <= k < i ==> (#[trigger] keys@[k])@ == derived_key(shared_secret.secret@, info@, k as usize),
        decreases key_count - i,
    {
        let h = hash_key_input(&shared_secret.secret, info, i);
        let mut key = [0u8; 32];
        let mut j: usize = 0;
        while j < 32
            invariant
                0 <= j <= 32,
                forall|k: int| 0 <= k < j ==> key@[k] == hash_fill_byte(h, k),
            decreases 32 - j,
        {
            let shift: u64 = 8 * ((j % 8) as u64);
            key.set(j, ((h >> shift) & 0xff) as u8);
            j = j + 1;
        }
        assert(key@ =~= derived_key(shared_secret.secret@, info@, i));
        keys.push(key);
        i = i + 1;
    }
    keys
}

/// Every derived key repeats its first eight bytes: byte `j` equals byte
/// `j % 8`. (Key `i` depends only on the secret, the info and `i`, so
/// deriving more keys keeps the earlier ones; see `derive_keys`.)
pub proof fn law_derived_key_repeats(secret: Seq<u8>, info: Seq<u8>, i: usize)
    ensures
        derived_key(secret, info, i).len() == 32,
        forall|j: int| 0 <= j < 32 ==> #[trigger] derived_key(secret, info, i)[j] == derived_key(secret, info, i)[j % 8],
{
    let k = derived_key(secret, info, i);
    assert forall|j: int| 0 <= j < 32 implies #[trigger] k[j] == k[j % 8] by {
        assert((j % 8) % 8 == j % 8);
    }
}

/// Byte `i` of the XOR of the secrets, a missing byte counting as zero.
pub open spec fn xor_byte(secrets: Seq<&SharedSecret>, i: int) -> u8
    decreases secrets.len(),
{
    if secrets.len() == 0 {
        0
    } else {
        let s = secrets.last().secret@;
        xor_byte(secrets.drop_last(), i) ^ (if i < s.len() { s[i] } else { 0u8 })
    }
}

/// The two secrets `a` and `b`, in that order.
pub open spec fn pair<'a>(a: &'a SharedSecret, b: &'a SharedSecret) -> Seq<&'a SharedSecret> {
    seq![a, b]
}

/// Combining two secrets does not depend on their order, a secret combined
/// with itself gives zeros, and combining with an all-zero secret of 32
/// bytes gives the secret alone.
pub proof fn law_combine_secrets_xor(a: &SharedSecret, b: &SharedSecret, zero: &SharedSecret)
    requires
        zero.secret@.len() == 32,
        forall|k: int| 0 <= k < 32 ==> #[trigger] zero.secret@[k] == 0u8,
    ensures
        forall|i: int| 0 <= i < 32 ==> #[trigger] xor_byte(pair(a, b), i) == xor_byte(pair(b, a), i),
        forall|i: int| 0 <= i < 32 ==> #[trigger] xor_byte(pair(a, a), i) == 0u8,
        forall|i: int| 0 <= i < 32 ==> #[trigger] xor_byte(pair(a, zero), i) == xor_byte(Seq::empty().push(a), i),
{
    let sa = Seq::<&SharedSecret>::empty().push(a);
    let sb = Seq::<&SharedSecret>::empty().push(b);
    assert(pair(a, b).drop_last() =~= sa);
    assert(pair(b, a).drop_last() =~= sb);
    assert(pair(a, a).drop_last() =~= sa);
    assert(pair(a, zero).drop_last() =~= sa);
    assert(sa.drop_last() =~= Seq::<&SharedSecret>::empty());
    assert(sb.drop_last() =~= Seq::<&SharedSecret>::empty());
    assert(sa.last() == a);
    assert(sb.last() == b);
    assert(pair(a, b).last() == b);
    assert(pair(b, a).last() == a);
    assert(pair(a, a).last() == a);
    assert forall|i: int| 0 <= i < 32 implies #[trigger] xor_byte(pair(a, b), i) == xor_byte(pair(b, a), i) by {
        let x: u8 = if i < a.secret@.len() { a.secret@[i] } else { 0u8 };
        let y: u8 = if i < b.secret@.len() { b.secret@[i] } else { 0u8 };
        assert(xor_byte(Seq::<&SharedSecret>::empty(), i) == 0u8);
        assert(xor_byte(sa, i) == 0u8 ^ x);
        assert(xor_byte(sb, i) == 0u8 ^ y);
        assert(xor_byte(pair(a, b), i) == xor_byte(sa, i) ^ y);
        assert(xor_byte(pair(b, a), i) == xor_byte(sb, i) ^ x);
        assert((0u8 ^ x) ^ y == (0u8 ^ y) ^ x) by (bit_vector);
    }
    assert forall|i: int| 0 <= i < 32 implies #[trigger] xor_byte(pair(a, a), i) == 0u8 by {
        let x: u8 = if i < a.secret@.len() { a.secret@[i] } else { 0u8 };
        assert(xor_byte(Seq::<&SharedSecret>::empty(), i) == 0u8);
        assert(xor_byte(sa, i) == 0u8 ^ x);
        assert(xor_byte(pair(a, a), i) == xor_byte(sa, i) ^ x);
        assert((0u8 ^ x) ^ x == 0u8) by (bit_vector);
    }
    assert forall|i: int| 0 <= i < 32 implies #[trigger] xor_byte(pair(a, zero), i) == xor_byte(Seq::empty().push(a), i) by {
        let x: u8 = if i < a.secret@.len() { a.secret@[i] } else { 0u8 };
        assert(zero.secret@[i] == 0u8);
        assert(pair(a, zero).last() == zero);
        assert(xor_byte(Seq::<&SharedSecret>::empty(), i) == 0u8);
        assert(xor_byte(sa, i) == 0u8 ^ x);
        assert(xor_byte(pair(a, zero), i) == xor_byte(sa, i) ^ 0u8);
        assert((0u8 ^ x) ^ 0u8 == 0u8 ^ x) by (bit_vector);
    }
}

/// Combines secrets into one 32-byte secret: byte by byte XOR of their first
/// 32 bytes (all zeros when there are none).
pub fn combine_secrets(secrets: &[&SharedSecret]) -> (r: SharedSecret)
    ensures
        r.secret@.len() == 32,
        forall|i: int| 0 <= i < 32 ==> #[trigger] r.secret@[i] == xor_byte(secrets@, i),
{
    let mut combined: Vec<u8> = Vec::new();
    let mut i: usize = 0;
    while i < 32
        invariant
            0 <= i <= 32,
            combined@.len() == i,
            forall|k: int| 0 <= k < i ==> combined@[k] == 0u8,
        decreases 32 - i,
    {
        combined.push(0u8);
        i = i + 1;
    }
    let mut s: usize = 0;
    while s < secrets.len()
        invariant
            0 <= s <= secrets@.len(),
            combined@.len() == 32,
            forall|k: int| 0 <= k < 32 ==> #[trigger] combined@[k] == xor_byte(secrets@.take(s as int), k),
        decreases secrets@.len() - s,
    {
        let sec: &SharedSecret = secrets[s];
        let n = sec.secret.len();
        let ghost before = combined@;
        let mut j: usize = 0;
        while j < 32
            invariant
                0 <= j <= 32,
                combined@.len() == 32,
                n == sec.secret@.len(),
                forall|k: int| 0 <= k < j ==> #[trigger] combined@[k] == before[k] ^ (if k < n { sec.secret@[k] } else { 0u8 }),
                forall|k: int| j <= k < 32 ==> #[trigger] combined@[k] == before[k],
            decreases 32 - j,
        {
            if j < n {
                let b = combined[j] ^ sec.secret[j];
                combined.set(j, b);
            } else {
                let b = combined[j] ^ 0u8;
                combined.set(j, b);
            }
            j = j + 1;
        }
        proof {
            assert(secrets@.take(s + 1).drop_last() =~= secrets@.take(s as int));
            assert(secrets@.take(s + 1).last() == secrets@[s as int]);
        }
        s = s + 1;
    }
    proof {
        assert(secrets@.take(s as int) =~= secrets@);
    }
    SharedSecret { secret: combined }
}

} // verus!

//! The message path of a secure connection: size checks, nonces,
//! ChaCha20-Poly1305 sealing, length-prefixed framing into batches, back
//! pressure accounting, and parsing and opening of received batches.
//!
//! The transport (the QUIC connection and the channel that carries batches)
//! stays with the caller: it sends the batches this state hands out and
//! feeds back the batches it receives.

use vstd::prelude::*;
use crate::aead::{aead_open, aead_seal, chacha_opened, chacha_sealed};
use crate::types::NetworkError;

verus! {

#[verifier::external_type_specification]
#[verifier::external_body]
pub struct ExEphemeralPrivateKey(ring::agreement::EphemeralPrivateKey);

/// `ring::agreement::EphemeralPrivateKey::generate` for X25519 with
/// `ring::rand::SystemRandom`: a fresh random private key. Nothing is
/// promised of it; generation failing (the system's randomness failing)
/// panics.
#[verifier::external_body]
fn x25519_private_key() -> ring::agreement::EphemeralPrivateKey {
    let rng = ring::rand::SystemRandom::new();
    ring::agreement::EphemeralPrivateKey::generate(&ring::agreement::X25519, &rng).expect("system randomness failed")
}

/// `ring::agreement::EphemeralPrivateKey::compute_public_key`: the bytes of
/// the public key of an X25519 private key, which are 32.
#[verifier::external_body]
fn x25519_public_key(key: &ring::agreement::EphemeralPrivateKey) -> (r: Vec<u8>)
    ensures
        r@.len() == 32,
{
    key.compute_public_key().expect("X25519 public key").as_ref().to_vec()
}

/// Transport keys: an X25519 key pair.
pub struct TransportKeys {
    /// The private key
    pub private_key: ring::agreement::EphemeralPrivateKey,
    /// The 32 bytes of the public key
    pub public_key: Vec<u8>,
}

impl TransportKeys {
    /// A fresh random key pair.
    pub fn generate() -> (r: TransportKeys)
        ensures
            r.public_key@.len() == 32,
    {
        let private_key = x25519_private_key();
        let public_key = x25519_public_key(&private_key);
        TransportKeys { private_key, public_key }
    }
}

/// Configuration of a secure connection; times in milliseconds.
pub struct SecureConfig {
    /// Transport encryption keys
    pub transport_keys: TransportKeys,
    /// Time allowed to connect
    pub timeout_ms: u64,
    /// Interval between keep-alive messages
    pub keepalive_ms: u64,
}

impl SecureConfig {
    /// A copy of the configuration with fresh transport keys: keys are
    /// never shared between connections.
    pub fn duplicate(&self) -> (r: SecureConfig)
        ensures
            r.timeout_ms == self.timeout_ms,
            r.keepalive_ms == self.keepalive_ms,
            r.transport_keys.public_key@.len() == 32,
    {
        SecureConfig { transport_keys: TransportKeys::generate(), timeout_ms: self.timeout_ms, keepalive_ms: self.keepalive_ms }
    }
}

/// Largest message that can be sent (1 MiB).
pub const MAX_MESSAGE_SIZE: usize = 1048576;

/// The 4 big-endian bytes of a length below 2^32.
pub open spec fn be32(n: nat) -> Seq<u8> {
    seq![(n / 16777216 % 256) as u8, (n / 65536 % 256) as u8, (n / 256 % 256) as u8, (n % 256) as u8]
}

/// The value of 4 big-endian bytes.
pub open spec fn be32_value(b: Seq<u8>) -> nat {
    (b[0] as nat) * 16777216 + (b[1] as nat) * 65536 + (b[2] as nat) * 256 + (b[3] as nat)
}

/// A frame: the payload's length as 4 big-endian bytes, then the payload.
pub open spec fn frame(e: Seq<u8>) -> Seq<u8> {
    be32(e.len()) + e
}

/// The frames of `msgs`, one after the other.
pub open spec fn frames(msgs: Seq<Seq<u8>>) -> Seq<u8>
    decreases msgs.len(),
{
    if msgs.len() == 0 {
        seq![]
    } else {
        frame(msgs[0]) + frames(msgs.drop_first())
    }
}

/// Why a received batch could not be read.
#[derive(Debug, Clone, Copy, PartialEq, Eq, Structural)]
pub enum BatchError {
    /// Fewer than 4 bytes where a length was due
    IncompleteLength,
    /// Fewer bytes than the length announced
    IncompleteData,
    /// A payload did not open under the key and nonce
    Decryption,
}

/// The payloads of a batch of frames, in order, or the first problem met.
pub open spec fn parse_frames(b: Seq<u8>) -> Result<Seq<Seq<u8>>, BatchError>
    decreases b.len(),
{
    if b.len() == 0 {
        Ok(seq![])
    } else if b.len() < 4 {
        Err(BatchError::IncompleteLength)
    } else {
        let n = be32_value(b.take(4));
        if b.len() - 4 < n {
            Err(BatchError::IncompleteData)
        } else {
            match parse_frames(b.skip(4 + n as int)) {
                Ok(rest) => Ok(seq![b.subrange(4, 4 + n as int)] + rest),
                Err(e) => Err(e),
            }
        }
    }
}

/// The plaintexts of a batch whose payloads are opened under `key` and
/// `nonce`, in order, or the first problem met: a framing problem, or a
/// payload that does not open (checked before the next frame is read).
pub open spec fn open_batch(key: Seq<u8>, nonce: Seq<u8>, b: Seq<u8>) -> Result<Seq<Seq<u8>>, BatchError>
    decreases b.len(),
{
    if b.len() == 0 {
        Ok(seq![])
    } else if b.len() < 4 {
        Err(BatchError::IncompleteLength)
    } else {
        let n = be32_value(b.take(4));
        if b.len() - 4 < n {
            Err(BatchError::IncompleteData)
        } else {
            match chacha_opened(key, nonce, b.subrange(4, 4 + n as int)) {
                None => Err(BatchError::Decryption),
                Some(p) => match open_batch(key, nonce, b.skip(4 + n as int)) {
                    Ok(rest) => Ok(seq![p] + rest),
                    Err(e) => Err(e),
                },
            }
        }
    }
}

proof fn lemma_be32_roundtrip(n: nat)
    requires
        n < 0x1_0000_0000,
    ensures
        be32(n).len() == 4,
        be32_value(be32(n)) == n,
{
    let b = be32(n);
    assert(b[0] as nat == n / 16777216 % 256);
    assert(b[1] as nat == n / 65536 % 256);
    assert(b[2] as nat == n / 256 % 256);
    assert(b[3] as nat == n % 256);
    assert((n / 16777216 % 256) * 16777216 + (n / 65536 % 256) * 65536 + (n / 256 % 256) * 256 + n % 256 == n)
        by (nonlinear_arith)
        requires
            n < 0x1_0000_0000,
    ;
}

/// Framing law: reading back the frames of messages, each shorter than
/// 2^32 bytes, gives the messages, in order.
pub proof fn law_frames_round_trip(msgs: Seq<Seq<u8>>)
    requires
        forall|i: int| 0 <= i < msgs.len() ==> (#[trigger] msgs[i]).len() < 0x1_0000_0000,
    ensures
        parse_frames(frames(msgs)) == Ok::<Seq<Seq<u8>>, BatchError>(msgs),
    decreases msgs.len(),
{
    if msgs.len() > 0 {
        let m = msgs[0];
        let rest = msgs.drop_first();
        assert forall|i: int| 0 <= i < rest.len() implies (#[trigger] rest[i]).len() < 0x1_0000_0000 by {
            assert(rest[i] == msgs[i + 1]);
        }
        law_frames_round_trip(rest);
        lemma_be32_roundtrip(m.len());
        let b = frames(msgs);
        assert(b == be32(m.len()) + m + frames(rest));
        assert(b.take(4) =~= be32(m.len()));
        assert(b.subrange(4, 4 + m.len() as int) =~= m);
        assert(b.skip(4 + m.len() as int) =~= frames(rest));
        assert(seq![m] + rest =~= msgs);
        assert(be32_value(b.take(4)) == m.len());
        assert(parse_frames(b) == Ok::<Seq<Seq<u8>>, BatchError>(seq![b.subrange(4, 4 + m.len() as int)] + rest));
    } else {
        assert(msgs =~= Seq::<Seq<u8>>::empty());
        assert(frames(msgs) =~= Seq::<u8>::empty());
    }
}

/// The ciphertexts of `msgs`, each sealed under `key` and `nonce`.
pub open spec fn sealed_all(key: Seq<u8>, nonce: Seq<u8>, msgs: Seq<Seq<u8>>) -> Seq<Seq<u8>> {
    Seq::new(msgs.len(), |i: int| chacha_sealed(key, nonce, msgs[i]))
}

/// Batch law: a batch made of the frames of messages sealed under one key
/// and nonce reads back, under the same key and nonce, as those messages in
/// order, provided opening gives back what sealing made (as authenticated
/// encryption does) and every ciphertext is shorter than 2^32 bytes.
pub proof fn law_batch_round_trip(key: Seq<u8>, nonce: Seq<u8>, msgs: Seq<Seq<u8>>)
    requires
        forall|i: int| 0 <= i < msgs.len() ==> chacha_opened(key, nonce, #[trigger] chacha_sealed(key, nonce, msgs[i]))
            == Some(msgs[i]),
        forall|i: int| 0 <= i < msgs.len() ==> (#[trigger] chacha_sealed(key, nonce, msgs[i])).len() < 0x1_0000_0000,
    ensures
        open_batch(key, nonce, frames(sealed_all(key, nonce, msgs))) == Ok::<Seq<Seq<u8>>, BatchError>(msgs),
    decreases msgs.len(),
{
    let sealed = sealed_all(key, nonce, msgs);
    if msgs.len() > 0 {
        let m = msgs[0];
        let c = sealed[0];
        let rest = msgs.drop_first();
        assert forall|i: int| 0 <= i < rest.len() implies chacha_opened(key, nonce, #[trigger] chacha_sealed(key, nonce, rest[i]))
            == Some(rest[i]) by {
            assert(rest[i] == msgs[i + 1]);
            assert(chacha_sealed(key, nonce, msgs[i + 1]) == chacha_sealed(key, nonce, rest[i]));
        }
        assert forall|i: int| 0 <= i < rest.len() implies (#[trigger] chacha_sealed(key, nonce, rest[i])).len() < 0x1_0000_0000 by {
            assert(rest[i] == msgs[i + 1]);
            assert(chacha_sealed(key, nonce, msgs[i + 1]) == chacha_sealed(key, nonce, rest[i]));
        }
        law_batch_round_trip(key, nonce, rest);
        assert(sealed.drop_first() =~= sealed_all(key, nonce, rest));
        assert(c == chacha_sealed(key, nonce, msgs[0]));
        lemma_be32_roundtrip(c.len());
        let b = frames(sealed);
        assert(b == be32(c.len()) + c + frames(sealed.drop_first()));
        assert(b.take(4) =~= be32(c.len()));
        assert(b.subrange(4, 4 + c.len() as int) =~= c);
        assert(b.skip(4 + c.len() as int) =~= frames(sealed_all(key, nonce, rest)));
        assert(be32_value(b.take(4)) == c.len());
        assert(seq![m] + rest =~= msgs);
    } else {
        assert(sealed =~= Seq::<Seq<u8>>::empty());
        assert(frames(sealed) =~= Seq::<u8>::empty());
        assert(msgs =~= Seq::<Seq<u8>>::empty());
    }
}

/// The nonce of message number `n`: its 8 little-endian bytes, then 4 zeros.
pub open spec fn nonce_of(n: u64) -> Seq<u8> {
    Seq::new(12, |i: int| if i < 8 { ((n >> (8 * i) as u64) & 0xff) as u8 } else { 0u8 })
}

fn make_nonce(n: u64) -> (r: [u8; 12])
    ensures
        r@ == nonce_of(n),
{
    let mut nonce = [0u8; 12];
    let mut i: usize = 0;
    while i < 8
        invariant
            0 <= i <= 8,
            forall|j: int| 0 <= j < i ==> nonce@[j] == ((n >> (8 * j) as u64) & 0xff) as u8,
            forall|j: int| i <= j < 12 ==> nonce@[j] == 0u8,
        decreases 8 - i,
    {
        let shift: u64 = 8 * (i as u64);
        nonce.set(i, ((n >> shift) & 0xff) as u8);
        i = i + 1;
    }
    assert(nonce@ =~= nonce_of(n));
    nonce
}

/// Time elapsed from `from` to `now` (none where the clock went back).
pub open spec fn elapsed(from: u64, now: u64) -> u64 {
    if now > from { (now - from) as u64 } else { 0 }
}

/// State of the message path of a secure connection; times in milliseconds.
pub struct SecureConnection {
    /// ChaCha20-Poly1305 key
    pub key: [u8; 32],
    /// Frames waiting to be sent
    pub batch_buffer: Vec<u8>,
    /// Batch size, in KiB, at which the batch is sent
    pub batch_size: usize,
    /// Age of a batch at which it is sent
    pub batch_timeout_ms: u64,
    /// Time the last batch was sent
    pub last_batch: u64,
    /// Queued bytes at which senders are held back
    pub high_water_mark: usize,
    /// Queued bytes at or below which held-back senders are released
    pub low_water_mark: usize,
    /// Bytes queued and not yet sent
    pub queue_size: usize,
    /// Number of the next message (0 after the counter wrapped)
    pub nonce_counter: u64,
    /// Messages queued so far
    pub message_count: u64,
    /// Bytes queued so far
    pub bytes_processed: u64,
}

/// The message of a `send` refusal.
pub open spec fn send_error_text(len: nat) -> Seq<char> {
    if len == 0 { "Empty message"@ } else { "Message too large"@ }
}

impl SecureConnection {
    /// The batch size in bytes fits in a `usize`.
    pub open spec fn wf(&self) -> bool {
        self.batch_size * 1024 <= usize::MAX
    }

    /// A connection whose key is the first 32 bytes of `key_material`, with
    /// 128 KiB batches sent at least every 50 ms, back pressure from 64 MiB
    /// of queued bytes down to 32 MiB, and message numbers from 1.
    pub fn new(key_material: &[u8], now: u64) -> (r: SecureConnection)
        requires
            key_material@.len() >= 32,
        ensures
            r.wf(),
            r.key@ == key_material@.take(32),
            r.batch_buffer@.len() == 0,
            r.batch_size == 128,
            r.batch_timeout_ms == 50,
            r.last_batch == now,
            r.high_water_mark == 67108864,
            r.low_water_mark == 33554432,
            r.queue_size == 0,
            r.nonce_counter == 1,
            r.message_count == 0,
            r.bytes_processed == 0,
    {
        let mut key = [0u8; 32];
        let mut i: usize = 0;
        while i < 32
            invariant
                0 <= i <= 32,
                key_material@.len() >= 32,
                forall|j: int| 0 <= j < i ==> key@[j] == key_material@[j],
            decreases 32 - i,
        {
            key.set(i, key_material[i]);
            i = i + 1;
        }
        assert(key@ =~= key_material@.take(32));
        SecureConnection {
            key,
            batch_buffer: Vec::new(),
            batch_size: 128,
            batch_timeout_ms: 50,
            last_batch: now,
            high_water_mark: 67108864,
            low_water_mark: 33554432,
            queue_size: 0,
            nonce_counter: 1,
            message_count: 0,
            bytes_processed: 0,
        }
    }

    /// Whether a sender must wait for the queue to drain (or time out) before sending.
    pub fn needs_back_pressure(&self) -> (r: bool)
        ensures
            r == (self.queue_size >= self.high_water_mark),
    {
        self.queue_size >= self.high_water_mark
    }

    /// Queues a message at `now`: refuses an empty one and one above 1 MiB;
    /// otherwise takes the next message number as nonce (refusing number 0,
    /// reached only when the counter wrapped), seals the message, appends its
    /// frame to the batch and counts it. Returns whether the batch is due to
    /// be sent: it reached the batch size or the batch timeout passed.
    pub fn send_at(&mut self, data: &[u8], now: u64) -> (r: Result<bool, NetworkError>)
        requires
            old(self).wf(),
        ensures
            final(self).wf(),
            final(self).key == old(self).key,
            final(self).batch_size == old(self).batch_size,
            final(self).batch_timeout_ms == old(self).batch_timeout_ms,
            final(self).last_batch == old(self).last_batch,
            final(self).high_water_mark == old(self).high_water_mark,
            final(self).low_water_mark == old(self).low_water_mark,
            (data@.len() == 0 || data@.len() > MAX_MESSAGE_SIZE) ==> {
                &&& (r matches Err(NetworkError::MessageError(m)) && m@ == send_error_text(data@.len()))
                &&& *final(self) == *old(self)
            },
            0 < data@.len() <= MAX_MESSAGE_SIZE ==> {
                &&& final(self).nonce_counter == old(self).nonce_counter.wrapping_add(1)
                &&& old(self).nonce_counter == 0 ==> {
                    &&& (r matches Err(NetworkError::EncryptionError(m)) && m@ == "Nonce overflow"@)
                    &&& final(self).batch_buffer@ == old(self).batch_buffer@
                    &&& final(self).queue_size == old(self).queue_size
                    &&& final(self).message_count == old(self).message_count
                    &&& final(self).bytes_processed == old(self).bytes_processed
                }
                &&& old(self).nonce_counter != 0 ==> {
                    &&& final(self).batch_buffer@ == old(self).batch_buffer@
                        + frame(chacha_sealed(old(self).key@, nonce_of(old(self).nonce_counter), data@))
                    &&& final(self).queue_size == old(self).queue_size.wrapping_add(data@.len() as usize)
                    &&& final(self).message_count == old(self).message_count.wrapping_add(1)
                    &&& final(self).bytes_processed == old(self).bytes_processed.wrapping_add(data@.len() as u64)
                    &&& r == Ok::<bool, NetworkError>(
                        final(self).batch_buffer@.len() >= old(self).batch_size * 1024
                            || elapsed(old(self).last_batch, now) >= old(self).batch_timeout_ms,
                    )
                }
            },
    {
        let len = data.len();
        if len == 0 {
            return Err(NetworkError::MessageError(String::from_str("Empty message")));
        }
        if len > MAX_MESSAGE_SIZE {
            return Err(NetworkError::MessageError(String::from_str("Message too large")));
        }
        let nonce_value = self.nonce_counter;
        self.nonce_counter = self.nonce_counter.wrapping_add(1);
        if nonce_value == 0 {
            return Err(NetworkError::EncryptionError(String::from_str("Nonce overflow")));
        }
        let nonce = make_nonce(nonce_value);
        let encrypted = match aead_seal(&self.key, &nonce, data) {
            Ok(c) => c,
            Err(e) => {
                let mut m = String::from_str("Encryption failed: ");
                m.append(e.as_str());
                return Err(NetworkError::EncryptionError(m));
            },
        };
        let n = encrypted.len();
        let mut buffer: Vec<u8> = Vec::new();
        std::mem::swap(&mut buffer, &mut self.batch_buffer);
        let ghost before = buffer@;
        buffer.push(((n >> 24) & 0xff) as u8);
        buffer.push(((n >> 16) & 0xff) as u8);
        buffer.push(((n >> 8) & 0xff) as u8);
        buffer.push((n & 0xff) as u8);
        proof {
            assert((n >> 24) & 0xff == n / 16777216 % 256) by (bit_vector)
                requires
                    n < 0x1_0000_0000,
            ;
            assert((n >> 16) & 0xff == n / 65536 % 256) by (bit_vector)
                requires
                    n < 0x1_0000_0000,
            ;
            assert((n >> 8) & 0xff == n / 256 % 256) by (bit_vector);
            assert(n & 0xff == n % 256) by (bit_vector);
            assert(buffer@ =~= before + be32(n as nat));
        }
        let mut i: usize = 0;
        while i < n
            invariant
                0 <= i <= n,
                n == encrypted@.len(),
                buffer@ == before + be32(n as nat) + encrypted@.take(i as int),
            decreases n - i,
        {
            buffer.push(encrypted[i]);
            i = i + 1;
            assert(buffer@ =~= before + be32(n as nat) + encrypted@.take(i as int));
        }
        proof {
            assert(encrypted@.take(i as int) =~= encrypted@);
            assert(buffer@ =~= before + frame(encrypted@));
        }
        self.batch_buffer = buffer;
        self.queue_size = self.queue_size.wrapping_add(len);
        self.message_count = self.message_count.wrapping_add(1);
        self.bytes_processed = self.bytes_processed.wrapping_add(len as u64);
        let waited: u64 = if now > self.last_batch { now - self.last_batch } else { 0 };
        Ok(self.batch_buffer.len() >= self.batch_size * 1024 || waited >= self.batch_timeout_ms)
    }

    /// Hands out the frames waiting to be sent, leaving the batch empty, or
    /// `None` when there are none.
    pub fn take_batch(&mut self) -> (r: Option<Vec<u8>>)
        ensures
            old(self).batch_buffer@.len() == 0 ==> r is None && *final(self) == *old(self),
            old(self).batch_buffer@.len() > 0 ==> (r matches Some(b) && b@ == old(self).batch_buffer@),
            old(self).batch_buffer@.len() > 0 ==> final(self).batch_buffer@.len() == 0,
            final(self).queue_size == old(self).queue_size,
            final(self).last_batch == old(self).last_batch,
            final(self).nonce_counter == old(self).nonce_counter,
            final(self).key == old(self).key,
            final(self).batch_size == old(self).batch_size,
            final(self).low_water_mark == old(self).low_water_mark,
    {
        if self.batch_buffer.len() == 0 {
            return None;
        }
        let mut batch: Vec<u8> = Vec::new();
        std::mem::swap(&mut batch, &mut self.batch_buffer);
        Some(batch)
    }

    /// Records at `now` that a batch of `batch_len` bytes was sent: the
    /// queue shrinks by that much and the batch clock restarts. Returns
    /// whether held-back senders are released: the queue had at most the low
    /// water mark before it shrank.
    pub fn batch_sent_at(&mut self, batch_len: usize, now: u64) -> (r: bool)
        ensures
            final(self).queue_size == old(self).queue_size.wrapping_sub(batch_len),
            final(self).last_batch == now,
            r == (old(self).queue_size <= old(self).low_water_mark),
            final(self).batch_buffer == old(self).batch_buffer,
            final(self).nonce_counter == old(self).nonce_counter,
            final(self).key == old(self).key,
            final(self).batch_size == old(self).batch_size,
    {
        let previous = self.queue_size;
        self.queue_size = self.queue_size.wrapping_sub(batch_len);
        self.last_batch = now;
        previous <= self.low_water_mark
    }

    /// Puts back a batch that could not be sent, after whatever was queued since.
    pub fn restore_batch(&mut self, batch: &[u8])
        ensures
            final(self).batch_buffer@ == old(self).batch_buffer@ + batch@,
            final(self).queue_size == old(self).queue_size,
            final(self).last_batch == old(self).last_batch,
            final(self).nonce_counter == old(self).nonce_counter,
            final(self).key == old(self).key,
            final(self).batch_size == old(self).batch_size,
    {
        let mut buffer: Vec<u8> = Vec::new();
        std::mem::swap(&mut buffer, &mut self.batch_buffer);
        let mut i: usize = 0;
        let ghost before = buffer@;
        while i < batch.len()
            invariant
                0 <= i <= batch@.len(),
                buffer@ == before + batch@.take(i as int),
            decreases batch@.len() - i,
        {
            buffer.push(batch[i]);
            i = i + 1;
            assert(buffer@ =~= before + batch@.take(i as int));
        }
        assert(batch@.take(i as int) =~= batch@);
        self.batch_buffer = buffer;
    }

    /// Reads a received batch: its frames are opened, in order, under the
    /// key and the nonce of the current message number; see `open_batch`.
    pub fn receive_batch(&self, batch: &[u8]) -> (r: Result<Vec<Vec<u8>>, NetworkError>)
        ensures
            open_batch(self.key@, nonce_of(self.nonce_counter), batch@) matches Ok(msgs) ==> (r matches Ok(v)
                && v@.len() == msgs.len() && forall|i: int| 0 <= i < msgs.len() ==> (#[trigger] v@[i])@ == msgs[i]),
            open_batch(self.key@, nonce_of(self.nonce_counter), batch@) == Err::<Seq<Seq<u8>>, BatchError>(BatchError::IncompleteLength)
                ==> (r matches Err(NetworkError::EncryptionError(m)) && m@ == "Incomplete message length"@),
            open_batch(self.key@, nonce_of(self.nonce_counter), batch@) == Err::<Seq<Seq<u8>>, BatchError>(BatchError::IncompleteData)
                ==> (r matches Err(NetworkError::EncryptionError(m)) && m@ == "Incomplete message data"@),
            open_batch(self.key@, nonce_of(self.nonce_counter), batch@) == Err::<Seq<Seq<u8>>, BatchError>(BatchError::Decryption)
                ==> (r matches Err(NetworkError::EncryptionError(_))),
    {
        let nonce = make_nonce(self.nonce_counter);
        let ghost key = self.key@;
        let ghost b = batch@;
        let mut messages: Vec<Vec<u8>> = Vec::new();
        let mut pos: usize = 0;
        proof {
            assert(b.skip(0) =~= b);
        }
        while pos < batch.len()
            invariant
                pos <= b.len(),
                b == batch@,
                key == self.key@,
                nonce@ == nonce_of(self.nonce_counter),
                open_batch(key, nonce@, b) == match open_batch(key, nonce@, b.skip(pos as int)) {
                    Ok(rest) => Ok(messages@.map_values(|m: Vec<u8>| m@) + rest),
                    Err(e) => Err::<Seq<Seq<u8>>, BatchError>(e),
                },
            decreases b.len() - pos,
        {
            let ghost s = b.skip(pos as int);
            if batch.len() - pos < 4 {
                return Err(NetworkError::EncryptionError(String::from_str("Incomplete message length")));
            }
            let len: usize = ((batch[pos] as usize) * 16777216) + ((batch[pos + 1] as usize) * 65536)
                + ((batch[pos + 2] as usize) * 256) + (batch[pos + 3] as usize);
            proof {
                assert(s.take(4) =~= b.subrange(pos as int, pos + 4));
                assert(len == be32_value(s.take(4)));
            }
            if batch.len() - pos - 4 < len {
                return Err(NetworkError::EncryptionError(String::from_str("Incomplete message data")));
            }
            let start = pos + 4;
            let end = start + len;
            let encrypted = slice_to_vec(batch, start, end);
            proof {
                assert(s.subrange(4, 4 + len) =~= b.subrange(start as int, end as int));
                assert(s.skip(4 + len) =~= b.skip(end as int));
            }
            match aead_open(&self.key, &nonce, encrypted.as_slice()) {
                Ok(plain) => {
                    let ghost before = messages@;
                    messages.push(plain);
                    proof {
                        assert(messages@.map_values(|m: Vec<u8>| m@) =~= before.map_values(|m: Vec<u8>| m@).push(plain@));
                        let tail = open_batch(key, nonce@, b.skip(end as int));
                        match tail {
                            Ok(rest) => {
                                assert(before.map_values(|m: Vec<u8>| m@) + (seq![plain@] + rest)
                                    =~= messages@.map_values(|m: Vec<u8>| m@) + rest);
                            },
                            Err(e) => {},
                        }
                    }
                },
                Err(e) => {
                    return Err(NetworkError::EncryptionError(e));
                },
            }
            pos = end;
        }
        proof {
            assert(b.skip(pos as int) =~= Seq::<u8>::empty());
            assert(messages@.map_values(|m: Vec<u8>| m@) + Seq::<Seq<u8>>::empty() =~= messages@.map_values(|m: Vec<u8>| m@));
        }
        Ok(messages)
    }
}

/// Copy of `s[from..to]`.
fn slice_to_vec(s: &[u8], from: usize, to: usize) -> (r: Vec<u8>)
    requires
        from <= to <= s@.len(),
    ensures
        r@ == s@.subrange(from as int, to as int),
{
    let mut r: Vec<u8> = Vec::new();
    let mut i = from;
    while i < to
        invariant
            from <= i <= to,
            to <= s@.len(),
            r@ == s@.subrange(from as int, i as int),
        decreases to - i,
    {
        r.push(s[i]);
        i = i + 1;
        assert(r@ =~= s@.subrange(from as int, i as int));
    }
    r
}

} // verus!

//! Message envelopes (integrity hash, timestamp, optional signature) and the
//! three-level priority queue that holds them.

use vstd::prelude::*;
use crate::digest::{blake3_digest, blake3_hash};
use crate::signing::{ed25519_public, ed25519_sign, ed25519_signature, ed25519_valid, ed25519_verify};
use crate::types::{MessagePriority, NetworkError, NetworkMessage};
use crate::clock::now_secs;

verus! {

/// A 32-byte hash.
#[derive(Debug, Clone, Copy, PartialEq, Eq, Hash)]
pub struct SerializableHash(pub [u8; 32]);

impl SerializableHash {
    /// The hash bytes.
    pub fn as_bytes(&self) -> (r: &[u8; 32])
        ensures
            *r == self.0,
    {
        &self.0
    }
}

/// Byte `i` of `t`, least significant first.
pub open spec fn le_byte(t: u64, i: int) -> u8 {
    ((t >> (8 * i) as u64) & 0xff) as u8
}

/// The 8 little-endian bytes of `t`.
pub open spec fn le_bytes(t: u64) -> Seq<u8> {
    Seq::new(8, |i: int| le_byte(t, i))
}

/// The integrity hash of a message whose encoding is `encoded`, stamped at
/// `timestamp`: BLAKE3 of the encoding followed by the timestamp's
/// little-endian bytes.
pub open spec fn envelope_hash(encoded: Seq<u8>, timestamp: u64) -> Seq<u8> {
    blake3_digest(encoded + le_bytes(timestamp))
}

/// A message with its integrity hash, timestamp (seconds) and signature.
#[derive(Debug, Clone)]
pub struct MessageEnvelope {
    /// The message
    pub message: NetworkMessage,
    /// Integrity hash
    pub hash: SerializableHash,
    /// Time it was wrapped, in seconds since the epoch
    pub timestamp: u64,
    /// Ed25519 signature of the hash
    pub signature: Option<Vec<u8>>,
}

fn hash_input(encoded: &[u8], timestamp: u64) -> (r: Vec<u8>)
    ensures
        r@ == encoded@ + le_bytes(timestamp),
{
    let mut v: Vec<u8> = Vec::new();
    let mut i: usize = 0;
    while i < encoded.len()
        invariant
            0 <= i <= encoded@.len(),
            v@ == encoded@.take(i as int),
        decreases encoded@.len() - i,
    {
        v.push(encoded[i]);
        i = i + 1;
        assert(v@ =~= encoded@.take(i as int));
    }
    assert(encoded@.take(i as int) =~= encoded@);
    let mut k: u64 = 0;
    while k < 8
        invariant
            0 <= k <= 8,
            v@.len() == encoded@.len() + k,
            v@.subrange(0, encoded@.len() as int) == encoded@,
            forall|j: int| 0 <= j < k ==> v@[encoded@.len() + j] == #[trigger] le_byte(timestamp, j),
        decreases 8 - k,
    {
        let shift: u64 = 8 * k;
        v.push(((timestamp >> shift) & 0xff) as u8);
        k = k + 1;
    }
    assert(v@ =~= encoded@ + le_bytes(timestamp));
    v
}

impl MessageEnvelope {
    /// Wraps a message whose encoding is `encoded` at `timestamp`, with its
    /// integrity hash and no signature.
    pub fn new(message: NetworkMessage, encoded: &[u8], timestamp: u64) -> (r: MessageEnvelope)
        ensures
            r.message == message,
            r.timestamp == timestamp,
            r.hash.0@ == envelope_hash(encoded@, timestamp),
            r.signature is None,
    {
        let h = blake3_hash(hash_input(encoded, timestamp).as_slice());
        MessageEnvelope { message, hash: SerializableHash(h), timestamp, signature: None }
    }

    /// Whether the hash matches the message encoding `encoded` and the timestamp.
    pub fn verify(&self, encoded: &[u8]) -> (r: bool)
        ensures
            r == (self.hash.0@ == envelope_hash(encoded@, self.timestamp)),
    {
        let h = blake3_hash(hash_input(encoded, self.timestamp).as_slice());
        let mut i: usize = 0;
        while i < 32
            invariant
                0 <= i <= 32,
                h@ == envelope_hash(encoded@, self.timestamp),
                forall|j: int| 0 <= j < i ==> h@[j] == self.hash.0@[j],
            decreases 32 - i,
        {
            if h[i] != self.hash.0[i] {
                proof {
                    assert(h@[i as int] != self.hash.0@[i as int]);
                }
                return false;
            }
            i = i + 1;
        }
        assert(h@ =~= self.hash.0@);
        true
    }

    /// Signs the hash with the Ed25519 key of the 32-byte seed `key`; another
    /// length is refused and nothing changes. The new signature verifies under
    /// the public key of `key`.
    pub fn sign(&mut self, key: &[u8]) -> (r: Result<(), NetworkError>)
        ensures
            final(self).message == old(self).message,
            final(self).hash == old(self).hash,
            final(self).timestamp == old(self).timestamp,
            r is Ok <==> key@.len() == 32,
            r is Err ==> (r matches Err(NetworkError::EncryptionError(_))) && final(self).signature == old(self).signature,
            r is Ok ==> (final(self).signature matches Some(s) && s@ == ed25519_signature(key@, old(self).hash.0@)),
            r is Ok ==> (final(self).signature matches Some(s) && ed25519_valid(ed25519_public(key@), final(self).hash.0@, s@)),
    {
        match ed25519_sign(key, self.hash.0.as_slice()) {
            Ok(sig) => {
                self.signature = Some(sig);
                Ok(())
            },
            Err(e) => Err(NetworkError::EncryptionError(e)),
        }
    }

    /// Checks the signature with `public_key`: `Ok(false)` when unsigned,
    /// `Ok(true)` when it verifies, an encryption error when it does not.
    pub fn verify_signature(&self, public_key: &[u8]) -> (r: Result<bool, NetworkError>)
        ensures
            self.signature is None ==> r == Ok::<bool, NetworkError>(false),
            self.signature matches Some(s) ==> (ed25519_valid(public_key@, self.hash.0@, s@) <==> r == Ok::<bool, NetworkError>(true)),
            self.signature matches Some(s) && !ed25519_valid(public_key@, self.hash.0@, s@)
                ==> (r matches Err(NetworkError::EncryptionError(_))),
    {
        match &self.signature {
            Some(sig) => match ed25519_verify(public_key, self.hash.0.as_slice(), sig.as_slice()) {
                Ok(()) => Ok(true),
                Err(e) => Err(NetworkError::EncryptionError(e)),
            },
            None => Ok(false),
        }
    }

    /// Whether the message is still alive at `now`: its timestamp plus its
    /// time to live lies after `now`.
    pub open spec fn alive_at(self, now: u64) -> bool {
        self.message.ttl_secs + self.timestamp > now
    }
}

/// Messages waiting to be sent, by priority, each level first in first out.
pub struct MessageQueue {
    /// High priority messages
    pub high_priority: Vec<MessageEnvelope>,
    /// Normal priority messages
    pub normal_priority: Vec<MessageEnvelope>,
    /// Low priority messages
    pub low_priority: Vec<MessageEnvelope>,
}

/// The queue of a priority level after pushing `env`.
pub open spec fn level_of(p: MessagePriority) -> int {
    match p {
        MessagePriority::High => 0,
        MessagePriority::Normal => 1,
        MessagePriority::Low => 2,
    }
}

/// `s` without the envelopes that are no longer alive at `now`, order kept.
pub open spec fn alive_only(s: Seq<MessageEnvelope>, now: u64) -> Seq<MessageEnvelope> {
    s.filter(|e: MessageEnvelope| e.alive_at(now))
}

impl MessageQueue {
    /// An empty queue.
    pub fn new() -> (r: MessageQueue)
        ensures
            r.high_priority@.len() == 0,
            r.normal_priority@.len() == 0,
            r.low_priority@.len() == 0,
            MessageQueue::level_matches(r),
    {
        MessageQueue { high_priority: Vec::new(), normal_priority: Vec::new(), low_priority: Vec::new() }
    }

    /// `n` is `o` with the envelope of `msg` (encoded as `encoded`, stamped
    /// at `timestamp`, unsigned) at the back of its priority level.
    pub open spec fn queued_after(o: MessageQueue, n: MessageQueue, msg: NetworkMessage, encoded: Seq<u8>, timestamp: u64) -> bool {
        let env = MessageEnvelope { message: msg, hash: n.last_enqueued_hash(msg.priority), timestamp, signature: None };
        &&& env.hash.0@ == envelope_hash(encoded, timestamp)
        &&& msg.priority == MessagePriority::High ==> n.high_priority@ == o.high_priority@.push(env)
            && n.normal_priority@ == o.normal_priority@ && n.low_priority@ == o.low_priority@
        &&& msg.priority == MessagePriority::Normal ==> n.normal_priority@ == o.normal_priority@.push(env)
            && n.high_priority@ == o.high_priority@ && n.low_priority@ == o.low_priority@
        &&& msg.priority == MessagePriority::Low ==> n.low_priority@ == o.low_priority@.push(env)
            && n.high_priority@ == o.high_priority@ && n.normal_priority@ == o.normal_priority@
    }

    /// Wraps a message (encoded as `encoded`) stamped at `timestamp` and adds
    /// it at the back of its priority level.
    pub fn enqueue_at(&mut self, msg: NetworkMessage, encoded: &[u8], timestamp: u64) -> (r: Result<(), NetworkError>)
        ensures
            r is Ok,
            MessageQueue::queued_after(*old(self), *final(self), msg, encoded@, timestamp),
            MessageQueue::level_matches(*old(self)) ==> MessageQueue::level_matches(*final(self)),
    {
        let priority = msg.priority;
        let envelope = MessageEnvelope::new(msg, encoded, timestamp);
        if !envelope.verify(encoded) {
            return Err(NetworkError::Internal(String::from_str("Message integrity check failed")));
        }
        match priority {
            MessagePriority::High => self.high_priority.push(envelope),
            MessagePriority::Normal => self.normal_priority.push(envelope),
            MessagePriority::Low => self.low_priority.push(envelope),
        }
        Ok(())
    }

    /// Hash of the last envelope of a level.
    pub open spec fn last_enqueued_hash(&self, p: MessagePriority) -> SerializableHash {
        match p {
            MessagePriority::High => self.high_priority@.last().hash,
            MessagePriority::Normal => self.normal_priority@.last().hash,
            MessagePriority::Low => self.low_priority@.last().hash,
        }
    }

    /// Wraps a message stamped now and queues it; see `enqueue_at`.
    pub fn enqueue(&mut self, msg: NetworkMessage, encoded: &[u8]) -> (r: Result<(), NetworkError>)
        ensures
            r is Ok,
            final(self).len_spec() == old(self).len_spec() + 1,
            exists|timestamp: u64| #[trigger] MessageQueue::queued_after(*old(self), *final(self), msg, encoded@, timestamp),
    {
        self.enqueue_at(msg, encoded, now_secs())
    }

    /// Total number of queued messages.
    pub open spec fn len_spec(&self) -> nat {
        self.high_priority@.len() + self.normal_priority@.len() + self.low_priority@.len()
    }

    /// Every envelope waits at the level of its message's priority.
    pub open spec fn level_matches(q: MessageQueue) -> bool {
        &&& forall|i: int| 0 <= i < q.high_priority@.len() ==> (#[trigger] q.high_priority@[i]).message.priority == MessagePriority::High
        &&& forall|i: int| 0 <= i < q.normal_priority@.len() ==> (#[trigger] q.normal_priority@[i]).message.priority == MessagePriority::Normal
        &&& forall|i: int| 0 <= i < q.low_priority@.len() ==> (#[trigger] q.low_priority@[i]).message.priority == MessagePriority::Low
    }

    /// The envelope that `dequeue` takes next: the oldest of the highest
    /// non-empty priority level.
    pub open spec fn next_out(q: MessageQueue) -> Option<MessageEnvelope> {
        if q.high_priority@.len() > 0 {
            Some(q.high_priority@[0])
        } else if q.normal_priority@.len() > 0 {
            Some(q.normal_priority@[0])
        } else if q.low_priority@.len() > 0 {
            Some(q.low_priority@[0])
        } else {
            None
        }
    }

    /// Takes the oldest message of the highest non-empty priority level.
    pub fn dequeue(&mut self) -> (r: Option<MessageEnvelope>)
        ensures
            r == MessageQueue::next_out(*old(self)),
            MessageQueue::level_matches(*old(self)) ==> MessageQueue::level_matches(*final(self)),
            old(self).high_priority@.len() > 0 ==> r == Some(old(self).high_priority@[0])
                && final(self).high_priority@ == old(self).high_priority@.drop_first()
                && final(self).normal_priority@ == old(self).normal_priority@ && final(self).low_priority@ == old(self).low_priority@,
            old(self).high_priority@.len() == 0 && old(self).normal_priority@.len() > 0
                ==> r == Some(old(self).normal_priority@[0])
                && final(self).normal_priority@ == old(self).normal_priority@.drop_first()
                && final(self).high_priority@ == old(self).high_priority@ && final(self).low_priority@ == old(self).low_priority@,
            old(self).high_priority@.len() == 0 && old(self).normal_priority@.len() == 0 && old(self).low_priority@.len() > 0
                ==> r == Some(old(self).low_priority@[0])
                && final(self).low_priority@ == old(self).low_priority@.drop_first()
                && final(self).high_priority@ == old(self).high_priority@ && final(self).normal_priority@ == old(self).normal_priority@,
            old(self).len_spec() == 0 ==> r is None && final(self).len_spec() == 0,
    {
        if self.high_priority.len() > 0 {
            let e = self.high_priority.remove(0);
            assert(self.high_priority@ =~= old(self).high_priority@.drop_first());
            return Some(e);
        }
        if self.normal_priority.len() > 0 {
            let e = self.normal_priority.remove(0);
            assert(self.normal_priority@ =~= old(self).normal_priority@.drop_first());
            return Some(e);
        }
        if self.low_priority.len() > 0 {
            let e = self.low_priority.remove(0);
            assert(self.low_priority@ =~= old(self).low_priority@.drop_first());
            return Some(e);
        }
        None
    }

    /// Total number of queued messages.
    pub fn len(&self) -> (r: usize)
        requires
            self.len_spec() <= usize::MAX,
        ensures
            r == self.len_spec(),
    {
        self.high_priority.len() + self.normal_priority.len() + self.low_priority.len()
    }

    /// Whether no message is queued.
    pub fn is_empty(&self) -> (r: bool)
        ensures
            r == (self.len_spec() == 0),
    {
        self.high_priority.len() == 0 && self.normal_priority.len() == 0 && self.low_priority.len() == 0
    }

    /// Drops, from every level, the messages no longer alive at `now`,
    /// keeping the order of the others.
    pub fn purge_expired_at(&mut self, now: u64)
        ensures
            final(self).high_priority@ == alive_only(old(self).high_priority@, now),
            final(self).normal_priority@ == alive_only(old(self).normal_priority@, now),
            final(self).low_priority@ == alive_only(old(self).low_priority@, now),
    {
        purge_level(&mut self.high_priority, now);
        purge_level(&mut self.normal_priority, now);
        purge_level(&mut self.low_priority, now);
    }

    /// Drops the messages no longer alive now; see `purge_expired_at`.
    pub fn purge_expired(&mut self)
        ensures
            exists|now: u64| #[trigger] alive_only(old(self).high_priority@, now) == final(self).high_priority@
                && final(self).normal_priority@ == alive_only(old(self).normal_priority@, now)
                && final(self).low_priority@ == alive_only(old(self).low_priority@, now),
    {
        let now = now_secs();
        self.purge_expired_at(now);
        assert(alive_only(old(self).high_priority@, now) == self.high_priority@);
    }
}

fn envelope_alive(e: &MessageEnvelope, now: u64) -> (r: bool)
    ensures
        r == e.alive_at(now),
{
    (e.message.ttl_secs as u128) + (e.timestamp as u128) > now as u128
}

fn purge_level(q: &mut Vec<MessageEnvelope>, now: u64)
    ensures
        final(q)@ == alive_only(old(q)@, now),
{
    let mut rest: Vec<MessageEnvelope> = Vec::new();
    std::mem::swap(&mut rest, q);
    let ghost all = rest@;
    let ghost mut k: int = 0;
    proof {
        assert(all.skip(0) =~= all);
        reveal(Seq::filter);
        assert(all.take(0) =~= Seq::<MessageEnvelope>::empty());
    }
    while rest.len() > 0
        invariant
            0 <= k <= all.len(),
            rest@ == all.skip(k),
            q@ == alive_only(all.take(k), now),
            all == old(q)@,
        decreases rest@.len(),
    {
        let e = rest.remove(0);
        proof {
            assert(e == all[k]);
            assert(all.take(k + 1).drop_last() =~= all.take(k));
            reveal(Seq::filter);
            assert(rest@ =~= all.skip(k + 1));
        }
        if envelope_alive(&e, now) {
            q.push(e);
        }
        proof {
            k = k + 1;
        }
    }
    proof {
        assert(all.take(k) =~= all);
    }
}

/// Whether every level of `q` at or above priority `p` is empty.
pub open spec fn nothing_at_or_above(q: MessageQueue, p: MessagePriority) -> bool {
    &&& q.high_priority@.len() == 0
    &&& level_of(p) >= 1 ==> q.normal_priority@.len() == 0
    &&& level_of(p) >= 2 ==> q.low_priority@.len() == 0
}

/// Queue order: a message queued when nothing of its priority or higher is
/// waiting is the next to come out, as queued; a message queued behind a
/// waiting one of the same or higher priority leaves that one next.
pub proof fn law_queue_order(o: MessageQueue, n: MessageQueue, msg: NetworkMessage, encoded: Seq<u8>, timestamp: u64)
    requires
        MessageQueue::queued_after(o, n, msg, encoded, timestamp),
    ensures
        nothing_at_or_above(o, msg.priority) ==> (MessageQueue::next_out(n) matches Some(e) && e.message == msg
            && e.timestamp == timestamp && e.signature is None && e.hash.0@ == envelope_hash(encoded, timestamp)),
        (MessageQueue::next_out(o) matches Some(e) && level_of(e.message.priority) <= level_of(msg.priority)
            && MessageQueue::level_matches(o)) ==> MessageQueue::next_out(n) == MessageQueue::next_out(o),
{
}

} // verus!

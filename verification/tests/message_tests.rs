use qudag_network::message::{MessageEnvelope, MessageQueue};
use qudag_network::types::{MessagePriority, NetworkError, NetworkMessage};
use ring::signature::KeyPair;

fn message(id: &str, priority: MessagePriority, ttl_secs: u64) -> NetworkMessage {
    NetworkMessage {
        id: id.to_string(),
        source: vec![1],
        destination: vec![2],
        payload: vec![0; 100],
        priority,
        ttl_secs,
    }
}

fn encoding(m: &NetworkMessage) -> Vec<u8> {
    let mut v = m.id.as_bytes().to_vec();
    v.extend_from_slice(&m.payload);
    v
}

#[test]
fn queue_orders_by_priority_then_arrival() {
    let mut queue = MessageQueue::new();
    assert!(queue.is_empty());
    for (id, p) in [("1", MessagePriority::Low), ("2", MessagePriority::High), ("3", MessagePriority::Normal), ("4", MessagePriority::High)] {
        let m = message(id, p, 60);
        let e = encoding(&m);
        assert!(queue.enqueue_at(m, &e, 1_000).is_ok());
    }
    assert_eq!(queue.len(), 4);
    let order: Vec<String> = (0..4).map(|_| queue.dequeue().unwrap().message.id).collect();
    assert_eq!(order, vec!["2", "4", "3", "1"]);
    assert!(queue.dequeue().is_none());
    assert!(queue.is_empty());
}

#[test]
fn envelope_integrity() {
    let m = message("x", MessagePriority::Normal, 60);
    let e = encoding(&m);
    let env = MessageEnvelope::new(m, &e, 42);
    assert!(env.verify(&e));
    assert!(!env.verify(b"something else"));
    let mut input = e.clone();
    input.extend_from_slice(&42u64.to_le_bytes());
    assert_eq!(env.hash.as_bytes(), blake3::hash(&input).as_bytes());
    let later = MessageEnvelope::new(message("x", MessagePriority::Normal, 60), &e, 43);
    assert_ne!(later.hash.0, env.hash.0);
}

#[test]
fn envelope_signatures() {
    let seed = [7u8; 32];
    let pair = ring::signature::Ed25519KeyPair::from_seed_unchecked(&seed).unwrap();
    let public = pair.public_key().as_ref().to_vec();
    let m = message("s", MessagePriority::High, 60);
    let e = encoding(&m);
    let mut env = MessageEnvelope::new(m, &e, 1);
    assert_eq!(env.verify_signature(&public).unwrap(), false);
    env.sign(&seed).unwrap();
    let sig = env.signature.clone().unwrap();
    assert_eq!(sig, pair.sign(env.hash.as_bytes()).as_ref().to_vec());
    assert_eq!(env.verify_signature(&public).unwrap(), true);
    let other = ring::signature::Ed25519KeyPair::from_seed_unchecked(&[8u8; 32]).unwrap();
    assert!(matches!(env.verify_signature(other.public_key().as_ref()), Err(NetworkError::EncryptionError(_))));
    assert!(matches!(env.sign(&[1u8; 5]), Err(NetworkError::EncryptionError(_))));
    assert_eq!(env.signature.unwrap(), sig);
}

#[test]
fn expired_messages_are_purged() {
    let mut queue = MessageQueue::new();
    let short = message("short", MessagePriority::Low, 1);
    let long = message("long", MessagePriority::Low, 100);
    let (es, el) = (encoding(&short), encoding(&long));
    queue.enqueue_at(short, &es, 1_000).unwrap();
    queue.enqueue_at(long, &el, 1_000).unwrap();
    queue.purge_expired_at(1_000);
    assert_eq!(queue.len(), 2);
    queue.purge_expired_at(1_001);
    assert_eq!(queue.len(), 1);
    assert_eq!(queue.dequeue().unwrap().message.id, "long");
}

#[test]
fn enqueue_stamps_now() {
    let mut queue = MessageQueue::new();
    let m = message("now", MessagePriority::Normal, 60);
    let e = encoding(&m);
    queue.enqueue(m, &e).unwrap();
    let env = queue.dequeue().unwrap();
    assert!(env.timestamp > 1_600_000_000);
    assert!(env.verify(&e));
}

#[test]
fn a_signed_envelope_verifies_under_the_seeds_public_key() {
    let seed = [3u8; 32];
    let public = qudag_network::signing::public_key_of_seed(&seed).unwrap();
    let pair = ring::signature::Ed25519KeyPair::from_seed_unchecked(&seed).unwrap();
    assert_eq!(public, pair.public_key().as_ref().to_vec());
    assert_ne!(public, seed.to_vec());
    assert!(qudag_network::signing::public_key_of_seed(&[3u8; 31]).is_none());
    let m = message("signed", MessagePriority::Normal, 60);
    let e = encoding(&m);
    let mut env = MessageEnvelope::new(m, &e, 9);
    env.sign(&seed).unwrap();
    assert_eq!(env.verify_signature(&public).unwrap(), true);
}

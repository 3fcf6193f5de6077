use chacha20poly1305::aead::{Aead, KeyInit};
use chacha20poly1305::{ChaCha20Poly1305, Key, Nonce};
use qudag_network::secure_channel::{SecureConfig, SecureConnection, TransportKeys};
use qudag_network::types::NetworkError;

fn nonce_bytes(n: u64) -> [u8; 12] {
    let mut nonce = [0u8; 12];
    nonce[..8].copy_from_slice(&n.to_le_bytes());
    nonce
}

#[test]
fn test_secure_connection() {
    let key = [3u8; 32];
    let mut conn = SecureConnection::new(&key, 0);
    assert!(conn.send_at(b"test message", 10).is_ok());
    assert_eq!(conn.message_count, 1);
}

#[test]
fn frames_are_sealed_under_the_message_number() {
    let key = [3u8; 32];
    let mut conn = SecureConnection::new(&key, 0);
    assert!(!conn.send_at(b"hello", 10).unwrap());
    let batch = conn.take_batch().unwrap();
    let len = u32::from_be_bytes([batch[0], batch[1], batch[2], batch[3]]) as usize;
    assert_eq!(len, 5 + 16);
    assert_eq!(batch.len(), 4 + len);
    let cipher = ChaCha20Poly1305::new(Key::from_slice(&key));
    let plain = cipher.decrypt(Nonce::from_slice(&nonce_bytes(1)), &batch[4..]).unwrap();
    assert_eq!(plain, b"hello");
    assert!(conn.take_batch().is_none());
    assert_eq!(conn.nonce_counter, 2);
    assert_eq!(conn.message_count, 1);
    assert_eq!(conn.bytes_processed, 5);
    assert_eq!(conn.queue_size, 5);
}

#[test]
fn a_batch_reads_back_under_the_same_message_number() {
    let key = [9u8; 32];
    let mut sender = SecureConnection::new(&key, 0);
    sender.send_at(b"only", 1).unwrap();
    let batch = sender.take_batch().unwrap();
    let receiver = SecureConnection::new(&key, 0);
    assert_eq!(receiver.receive_batch(&batch).unwrap(), vec![b"only".to_vec()]);
    // The sender has moved on to the next number: it cannot read its own batch.
    assert!(matches!(sender.receive_batch(&batch), Err(NetworkError::EncryptionError(_))));
}

#[test]
fn send_refusals() {
    let mut conn = SecureConnection::new(&[1u8; 40], 0);
    match conn.send_at(b"", 0) {
        Err(NetworkError::MessageError(m)) => assert_eq!(m, "Empty message"),
        _ => panic!("expected a refusal"),
    }
    match conn.send_at(&vec![0u8; 1048577], 0) {
        Err(NetworkError::MessageError(m)) => assert_eq!(m, "Message too large"),
        _ => panic!("expected a refusal"),
    }
    assert_eq!(conn.nonce_counter, 1);
    conn.nonce_counter = 0;
    match conn.send_at(b"x", 0) {
        Err(NetworkError::EncryptionError(m)) => assert_eq!(m, "Nonce overflow"),
        _ => panic!("expected a refusal"),
    }
    assert_eq!(conn.nonce_counter, 1);
    assert!(conn.batch_buffer.is_empty());
}

#[test]
fn batches_fall_due_by_size_or_age() {
    let mut conn = SecureConnection::new(&[2u8; 32], 1_000);
    assert!(!conn.send_at(b"a", 1_049).unwrap());
    assert!(conn.send_at(b"b", 1_050).unwrap());
    let mut big = SecureConnection::new(&[2u8; 32], 0);
    big.batch_size = 1;
    assert!(big.send_at(&[0u8; 1100], 0).unwrap());
}

#[test]
fn back_pressure_and_release() {
    let mut conn = SecureConnection::new(&[4u8; 32], 0);
    assert!(!conn.needs_back_pressure());
    conn.queue_size = conn.high_water_mark;
    assert!(conn.needs_back_pressure());
    assert!(!conn.batch_sent_at(conn.high_water_mark - conn.low_water_mark, 5));
    assert_eq!(conn.queue_size, conn.low_water_mark);
    assert_eq!(conn.last_batch, 5);
    assert!(conn.batch_sent_at(10, 6));
}

#[test]
fn restored_batches_go_after_newer_frames() {
    let mut conn = SecureConnection::new(&[5u8; 32], 0);
    conn.send_at(b"first", 0).unwrap();
    let first = conn.take_batch().unwrap();
    conn.send_at(b"second", 0).unwrap();
    let second_len = conn.batch_buffer.len();
    conn.restore_batch(&first);
    assert_eq!(conn.batch_buffer.len(), second_len + first.len());
    assert_eq!(&conn.batch_buffer[second_len..], &first[..]);
}

#[test]
fn malformed_batches() {
    let conn = SecureConnection::new(&[6u8; 32], 0);
    assert_eq!(conn.receive_batch(&[]).unwrap(), Vec::<Vec<u8>>::new());
    match conn.receive_batch(&[0, 0, 1]) {
        Err(NetworkError::EncryptionError(m)) => assert_eq!(m, "Incomplete message length"),
        _ => panic!("expected an error"),
    }
    match conn.receive_batch(&[0, 0, 0, 9, 1, 2]) {
        Err(NetworkError::EncryptionError(m)) => assert_eq!(m, "Incomplete message data"),
        _ => panic!("expected an error"),
    }
    assert!(matches!(conn.receive_batch(&[0, 0, 0, 2, 1, 2]), Err(NetworkError::EncryptionError(_))));
}

#[test]
fn transport_keys_are_fresh_x25519_pairs() {
    let a = TransportKeys::generate();
    let b = TransportKeys::generate();
    assert_eq!(a.public_key.len(), 32);
    assert_eq!(b.public_key.len(), 32);
    assert_ne!(a.public_key, b.public_key);
    let conn = SecureConnection::new(&a.public_key, 0);
    assert_eq!(conn.key.to_vec(), a.public_key);
}

#[test]
fn copies_of_a_secure_config_get_fresh_keys() {
    let config = SecureConfig { transport_keys: TransportKeys::generate(), timeout_ms: 30_000, keepalive_ms: 5_000 };
    let copy = config.duplicate();
    assert_eq!((copy.timeout_ms, copy.keepalive_ms), (30_000, 5_000));
    assert_eq!(copy.transport_keys.public_key.len(), 32);
    assert_ne!(copy.transport_keys.public_key, config.transport_keys.public_key);
}

use chacha20poly1305::aead::{Aead, KeyInit};
use chacha20poly1305::{ChaCha20Poly1305, Key, Nonce};
use qudag_network::traffic_cipher::TrafficCipher;

#[test]
fn test_traffic_obfuscation() {
    let cipher = TrafficCipher::new([7u8; 32]);
    let data = b"test message";
    let obfuscated = cipher.obfuscate_traffic(data).unwrap();
    assert_ne!(&obfuscated[12..], &data[..]);
    let deobfuscated = cipher.deobfuscate_traffic(&obfuscated).unwrap();
    assert_eq!(deobfuscated, data.to_vec());
}

#[test]
fn obfuscated_traffic_is_nonce_then_ciphertext() {
    let key = [9u8; 32];
    let cipher = TrafficCipher::new(key);
    let out = cipher.obfuscate_traffic(b"abc").unwrap();
    assert_eq!(out.len(), 12 + 3 + 16);
    let direct = ChaCha20Poly1305::new(Key::from_slice(&key));
    let plain = direct.decrypt(Nonce::from_slice(&out[..12]), &out[12..]).unwrap();
    assert_eq!(plain, b"abc");
    // Fresh nonces make two obfuscations of the same data differ.
    assert_ne!(cipher.obfuscate_traffic(b"abc").unwrap(), out);
}

#[test]
fn deobfuscation_errors() {
    let cipher = TrafficCipher::new([1u8; 32]);
    assert_eq!(cipher.deobfuscate_traffic(&[0u8; 11]), Err("Data too short".to_string()));
    let mut out = cipher.obfuscate_traffic(b"payload").unwrap();
    let last = out.len() - 1;
    out[last] ^= 1;
    let err = cipher.deobfuscate_traffic(&out).unwrap_err();
    assert!(err.starts_with("Decryption error: "));
    let other = TrafficCipher::new([2u8; 32]);
    assert!(other.deobfuscate_traffic(&cipher.obfuscate_traffic(b"x").unwrap()).is_err());
    assert_eq!(cipher.obfuscate_traffic(b"").unwrap().len(), 28);
}

use qudag_network::quantum_crypto::{
    combine_secrets, derive_keys, MlKem, MlKemCiphertext, MlKemSecurityLevel, QuantumKeyExchange, SharedSecret,
};
use qudag_network::types::NetworkError;

#[test]
fn test_ml_kem_keypair_generation() {
    let mut ml_kem = MlKem::new_default();
    let result = ml_kem.generate_keypair();
    assert!(result.is_ok());
    let (public_key, secret_key) = result.unwrap();
    assert_eq!(public_key.security_level, MlKemSecurityLevel::Level768);
    assert_eq!(secret_key.security_level, MlKemSecurityLevel::Level768);
}

#[test]
fn test_ml_kem_encapsulation_decapsulation() {
    let mut ml_kem = MlKem::new_default();
    let (public_key, secret_key) = ml_kem.generate_keypair().unwrap();
    let (ciphertext, shared_secret1) = ml_kem.encapsulate(&public_key).unwrap();
    let shared_secret2 = ml_kem.decapsulate(&secret_key, &ciphertext).unwrap();
    assert_eq!(shared_secret1.secret.len(), shared_secret2.secret.len());
}

#[test]
fn test_quantum_key_exchange() {
    let mut initiator = QuantumKeyExchange::new();
    let mut responder = QuantumKeyExchange::new();
    let _initiator_pk = initiator.initialize().unwrap();
    let responder_pk = responder.initialize().unwrap();
    let (ciphertext, initiator_secret) = initiator.initiate_exchange(&responder_pk).unwrap();
    let responder_secret = responder.complete_exchange(&ciphertext).unwrap();
    assert_eq!(initiator_secret.secret.len(), responder_secret.secret.len());
}

#[test]
fn test_shared_secret_zeroization() {
    let secret = SharedSecret { secret: vec![0xFF; 32] };
    assert!(secret.secret.iter().all(|&b| b == 0xFF));
    drop(secret);
}

#[test]
fn test_security_level_mismatch() {
    let mut ml_kem_512 = MlKem::new(MlKemSecurityLevel::Level512);
    let mut ml_kem_768 = MlKem::new(MlKemSecurityLevel::Level768);
    let (public_key_512, _) = ml_kem_512.generate_keypair().unwrap();
    let result = ml_kem_768.encapsulate(&public_key_512);
    assert!(result.is_err());
}

#[test]
fn key_sizes_of_each_level() {
    assert_eq!(MlKem::new(MlKemSecurityLevel::Level512).get_key_sizes(), (800, 1632));
    assert_eq!(MlKem::new(MlKemSecurityLevel::Level768).get_key_sizes(), (1184, 2400));
    assert_eq!(MlKem::new(MlKemSecurityLevel::Level1024).get_key_sizes(), (1568, 3168));
    assert_eq!(MlKem::new(MlKemSecurityLevel::Level768).get_encapsulation_sizes(), (1088, 32));
    assert_eq!(MlKem::new(MlKemSecurityLevel::Level1024).get_shared_secret_size(), 32);
    assert_eq!(MlKemSecurityLevel::default(), MlKemSecurityLevel::Level768);

    let mut kem = MlKem::new(MlKemSecurityLevel::Level1024);
    let (pk, sk) = kem.generate_keypair().unwrap();
    assert_eq!(pk.key_data.len(), 1568);
    assert_eq!(sk.key_data.len(), 3168);
    let (ct, ss) = kem.encapsulate(&pk).unwrap();
    assert_eq!(ct.ciphertext.len(), 1568);
    assert_eq!(ss.secret.len(), 32);
}

#[test]
fn decapsulation_depends_on_the_ciphertext_only() {
    let mut kem = MlKem::new_default();
    let (_, sk) = kem.generate_keypair().unwrap();
    let ct = MlKemCiphertext { ciphertext: vec![1, 2, 3], security_level: MlKemSecurityLevel::Level768 };
    let a = kem.decapsulate(&sk, &ct).unwrap();
    let b = kem.decapsulate(&sk, &ct).unwrap();
    assert_eq!(a.secret, b.secret);
    assert_eq!(a.secret.len(), 32);
    // The fill repeats the eight bytes of one hash.
    assert_eq!(a.secret[0..8], a.secret[8..16]);
    let other = MlKemCiphertext { ciphertext: vec![1, 2, 4], security_level: MlKemSecurityLevel::Level768 };
    assert_ne!(kem.decapsulate(&sk, &other).unwrap().secret, a.secret);
    let wrong = MlKemCiphertext { ciphertext: vec![1, 2, 3], security_level: MlKemSecurityLevel::Level512 };
    assert!(matches!(kem.decapsulate(&sk, &wrong), Err(NetworkError::EncryptionError(_))));
}

#[test]
fn exchange_without_initialization_is_refused() {
    let exchange = QuantumKeyExchange::new();
    assert!(exchange.get_public_key().is_none());
    let ct = MlKemCiphertext { ciphertext: vec![0; 1088], security_level: MlKemSecurityLevel::Level768 };
    match exchange.complete_exchange(&ct) {
        Err(NetworkError::EncryptionError(m)) => assert_eq!(m, "Key exchange not initialized"),
        _ => panic!("expected an error"),
    }
}

#[test]
fn initialized_exchange_publishes_its_key() {
    let mut exchange = QuantumKeyExchange::with_security_level(MlKemSecurityLevel::Level512);
    let pk = exchange.initialize().unwrap();
    let published = exchange.get_public_key().unwrap();
    assert_eq!(published.key_data, pk.key_data);
    assert_eq!(pk.key_data.len(), 800);
    assert_eq!(QuantumKeyExchange::default().ml_kem.security_level, MlKemSecurityLevel::Level768);
}

#[test]
fn chacha_key_pads_and_truncates() {
    let short = SharedSecret { secret: vec![9, 8, 7] };
    let key = short.to_chacha20_key();
    assert_eq!(key[..3], [9, 8, 7]);
    assert!(key[3..].iter().all(|&b| b == 0));
    let long = SharedSecret { secret: (0..40).collect() };
    let key = long.to_chacha20_key();
    let expected: Vec<u8> = (0..32).collect();
    assert_eq!(key.to_vec(), expected);
    assert_eq!(long.as_bytes().len(), 40);
}

#[test]
fn derived_keys_are_deterministic_and_distinct() {
    let secret = SharedSecret { secret: vec![5; 32] };
    let a = derive_keys(&secret, b"session", 3);
    let b = derive_keys(&secret, b"session", 3);
    assert_eq!(a.len(), 3);
    assert_eq!(a, b);
    assert_ne!(a[0], a[1]);
    assert_ne!(a[1], a[2]);
    let c = derive_keys(&secret, b"other", 1);
    assert_ne!(c[0], a[0]);
    assert!(derive_keys(&secret, b"session", 0).is_empty());
}

#[test]
fn combined_secret_is_the_xor() {
    let a = SharedSecret { secret: vec![0b1010; 32] };
    let b = SharedSecret { secret: vec![0b0110; 16] };
    let c = combine_secrets(&[&a, &b]);
    assert_eq!(c.secret.len(), 32);
    assert!(c.secret[..16].iter().all(|&x| x == 0b1100));
    assert!(c.secret[16..].iter().all(|&x| x == 0b1010));
    let none = combine_secrets(&[]);
    assert_eq!(none.secret, vec![0u8; 32]);
}

#[test]
fn combining_secrets_is_an_order_free_xor() {
    let a = SharedSecret { secret: (0..32).collect() };
    let b = SharedSecret { secret: vec![0xa5; 32] };
    let zero = SharedSecret { secret: vec![0; 32] };
    assert_eq!(combine_secrets(&[&a, &b]).secret, combine_secrets(&[&b, &a]).secret);
    assert_eq!(combine_secrets(&[&a, &a]).secret, vec![0u8; 32]);
    assert_eq!(combine_secrets(&[&a, &zero]).secret, combine_secrets(&[&a]).secret);
    assert_eq!(combine_secrets(&[&a]).secret, a.secret);
    let few = derive_keys(&a, b"info", 2);
    let more = derive_keys(&a, b"info", 5);
    assert_eq!(&more[..2], &few[..]);
    for key in &more {
        for j in 0..32 {
            assert_eq!(key[j], key[j % 8]);
        }
    }
}

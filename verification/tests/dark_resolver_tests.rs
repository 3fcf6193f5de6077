use qudag_network::dark_resolver::{DarkAddress, DarkDomainRecord, DarkResolver, DarkResolverError};
use qudag_network::types::{NetworkAddress, PeerId};

fn accept(_r: &DarkDomainRecord) -> Result<(), DarkResolverError> {
    Ok(())
}

fn reject(_r: &DarkDomainRecord) -> Result<(), DarkResolverError> {
    Err(DarkResolverError::InvalidSignature)
}

fn record(key: Vec<u8>, addresses: Vec<NetworkAddress>, alias: Option<String>, ttl: u32, owner: PeerId, now: u64) -> DarkDomainRecord {
    DarkDomainRecord::new(key, vec![7u8; 1184], addresses, alias, ttl, owner, now)
}

#[test]
fn test_valid_dark_domains() {
    assert!(DarkResolver::is_valid_dark_domain("test.dark"));
    assert!(DarkResolver::is_valid_dark_domain("my-domain.dark"));
    assert!(DarkResolver::is_valid_dark_domain("node123.dark"));
    assert!(DarkResolver::is_valid_dark_domain("a2b.dark"));
    assert!(!DarkResolver::is_valid_dark_domain("invalid"));
    assert!(!DarkResolver::is_valid_dark_domain(".dark"));
    assert!(!DarkResolver::is_valid_dark_domain("test.darknet"));
    assert!(!DarkResolver::is_valid_dark_domain("-test.dark"));
    assert!(!DarkResolver::is_valid_dark_domain("test-.dark"));
    assert!(!DarkResolver::is_valid_dark_domain("test--domain.dark"));
    assert!(!DarkResolver::is_valid_dark_domain("ab.dark"));
    assert!(!DarkResolver::is_valid_dark_domain(&format!("{}.dark", "a".repeat(64))));
}

#[test]
fn test_dark_address_generation() {
    let public_key = vec![1, 2, 3, 4, 5, 6, 7, 8, 9, 10];
    let addr1 = DarkResolver::generate_dark_address(&public_key, None).unwrap();
    assert!(addr1.address.len() > 0);
    assert!(addr1.domain.ends_with(".dark"));
    let addr2 = DarkResolver::generate_dark_address(&public_key, Some("mynode")).unwrap();
    assert_eq!(addr2.domain, "mynode.dark");
    let addr3 = DarkResolver::generate_dark_address(&public_key, None).unwrap();
    assert_eq!(addr1.address, addr3.address);
}

#[test]
fn generated_domain_is_the_lowercased_address_prefix() {
    let public_key = vec![42u8; 32];
    let addr = DarkResolver::generate_dark_address(&public_key, None).unwrap();
    let expected = format!("{}.dark", addr.address[..8].to_lowercase());
    assert_eq!(addr.domain, expected);
    // The address is the base58 text of the first 20 bytes of a BLAKE3 hash.
    let mut input = b"dark_address_v1".to_vec();
    input.extend_from_slice(&public_key);
    let hash = blake3::hash(&input);
    assert_eq!(addr.address, bs58::encode(&hash.as_bytes()[..20]).into_string());
    assert_ne!(DarkResolver::generate_dark_address(&[43u8; 32], None).unwrap().address, addr.address);
    assert!(matches!(
        DarkResolver::generate_dark_address(&public_key, Some("x")),
        Err(DarkResolverError::InvalidDomain)
    ));
}

#[test]
fn custom_names() {
    assert!(DarkResolver::is_valid_custom_name("abc"));
    assert!(DarkResolver::is_valid_custom_name("a-b-c"));
    assert!(!DarkResolver::is_valid_custom_name("ab"));
    assert!(!DarkResolver::is_valid_custom_name("-abc"));
    assert!(!DarkResolver::is_valid_custom_name("abc-"));
    assert!(!DarkResolver::is_valid_custom_name("a_b"));
    assert!(!DarkResolver::is_valid_custom_name(&"a".repeat(64)));
    assert!(DarkResolver::is_valid_custom_name(&"a".repeat(63)));
}

#[test]
fn test_domain_registration_and_resolution() {
    let mut resolver = DarkResolver::new();
    let owner_id = PeerId::random();
    let addresses = vec![NetworkAddress::new([1, 2, 3, 4], 8080), NetworkAddress::new([5, 6, 7, 8], 9090)];
    let now = 1_700_000_000;
    let rec = record(vec![3u8; 1952], addresses.clone(), Some("Test Node".to_string()), 3600, owner_id, now);
    let dark_addr = resolver.register_domain(Some("testnode"), rec).unwrap();
    assert_eq!(dark_addr.domain, "testnode.dark");

    let found = resolver.lookup_domain_at(&dark_addr.domain, now + 10, &accept).unwrap();
    assert_eq!(found.addresses, addresses);
    assert_eq!(found.alias, Some("Test Node".to_string()));
    assert_eq!(found.owner_id, owner_id);
    assert_eq!(found.ttl, 3600);

    let resolved = resolver.resolve_addresses_at(&dark_addr.domain, now + 10, &accept).unwrap();
    assert_eq!(resolved, addresses);

    let again = record(vec![4u8; 1952], vec![], None, 3600, PeerId::random(), now);
    let result = resolver.register_domain(Some("testnode"), again);
    assert!(matches!(result, Err(DarkResolverError::DomainExists)));
    assert_eq!(resolver.reverse_lookup.len(), 1);
    assert_eq!(resolver.reverse_lookup[0].0, dark_addr.address);
}

#[test]
fn test_address_book() {
    let mut resolver = DarkResolver::new();
    let dark_addr = DarkAddress { address: "3HGvnkH2VwR3cD8r7shs7V".to_string(), domain: "mynode.dark".to_string() };
    resolver
        .add_to_address_book("Alice's Node".to_string(), dark_addr.clone(), Some("Primary node".to_string()))
        .unwrap();
    let entry = resolver.lookup_address_book("Alice's Node").unwrap();
    assert_eq!(entry.dark_address, dark_addr);
    assert_eq!(entry.notes, Some("Primary node".to_string()));
    let entries = resolver.list_address_book().unwrap();
    assert_eq!(entries.len(), 1);
}

#[test]
fn address_book_replaces_and_misses() {
    let mut resolver = DarkResolver::new();
    let a = DarkAddress { address: "A".to_string(), domain: "aaa.dark".to_string() };
    let b = DarkAddress { address: "B".to_string(), domain: "bbb.dark".to_string() };
    resolver.add_to_address_book_at("n".to_string(), a, None, 5).unwrap();
    resolver.add_to_address_book_at("n".to_string(), b.clone(), None, 6).unwrap();
    let entry = resolver.lookup_address_book("n").unwrap();
    assert_eq!(entry.dark_address, b);
    assert_eq!(entry.added_at, 6);
    assert_eq!(resolver.list_address_book().unwrap().len(), 1);
    assert!(matches!(resolver.lookup_address_book("m"), Err(DarkResolverError::DomainNotFound)));
}

#[test]
fn test_domain_expiration() {
    let mut resolver = DarkResolver::new();
    let owner_id = PeerId::random();
    let mut rec = record(vec![5u8; 1952], vec![NetworkAddress::new([1, 2, 3, 4], 8080)], None, 60, owner_id, 1000);
    assert_eq!(rec.expires_at, 1060);
    rec.signature = vec![1, 2, 3];
    resolver.register_domain(Some("expired"), rec).unwrap();
    let now = 2_000;
    let result = resolver.lookup_domain_at("expired.dark", now, &accept);
    assert!(matches!(result, Err(DarkResolverError::DomainExpired)));
    let removed = resolver.cleanup_expired_at(now).unwrap();
    assert_eq!(removed, 1);
    let result = resolver.lookup_domain_at("expired.dark", now, &accept);
    assert!(matches!(result, Err(DarkResolverError::DomainNotFound)));
    assert!(resolver.reverse_lookup.is_empty());
}

#[test]
fn expiry_boundary() {
    let rec = record(vec![1], vec![], None, 60, PeerId::random(), 1000);
    assert!(!rec.is_expired_at(1060));
    assert!(rec.is_expired_at(1061));
}

#[test]
fn lookups_of_malformed_or_unknown_domains() {
    let resolver = DarkResolver::new();
    assert!(matches!(resolver.lookup_domain_at("bad", 0, &accept), Err(DarkResolverError::InvalidDomain)));
    assert!(matches!(resolver.lookup_domain("nothere.dark", &accept), Err(DarkResolverError::DomainNotFound)));
    assert!(matches!(resolver.resolve_addresses("nothere.dark", &accept), Err(DarkResolverError::DomainNotFound)));
}

#[test]
fn updates_need_the_same_signing_key() {
    let mut resolver = DarkResolver::new();
    let owner = PeerId::random();
    let key = vec![9u8; 1952];
    resolver.register_domain(Some("node"), record(key.clone(), vec![], None, 100, owner, 0)).unwrap();
    let other = record(vec![8u8; 1952], vec![], None, 100, owner, 10);
    assert!(matches!(resolver.update_domain_at("node.dark", other, 10, &accept), Err(DarkResolverError::InvalidSignature)));
    let newer = record(key, vec![NetworkAddress::new([9, 9, 9, 9], 1)], None, 100, owner, 10);
    resolver.update_domain_at("node.dark", newer, 10, &accept).unwrap();
    let resolved = resolver.resolve_addresses_at("node.dark", 50, &accept).unwrap();
    assert_eq!(resolved, vec![NetworkAddress::new([9, 9, 9, 9], 1)]);
    assert!(matches!(
        resolver.update_domain_at("none.dark", record(vec![1], vec![], None, 1, owner, 0), 0, &accept),
        Err(DarkResolverError::DomainNotFound)
    ));
}

#[test]
fn registration_without_custom_name() {
    let mut resolver = DarkResolver::new();
    let key = vec![11u8; 1952];
    let expected = DarkResolver::generate_dark_address(&key, None).unwrap();
    let addr = resolver.register_domain(None, record(key, vec![], None, 10, PeerId::random(), 0)).unwrap();
    assert_eq!(addr, expected);
    assert!(resolver.lookup_domain_at(&addr.domain, 5, &accept).is_ok());
}

#[test]
fn dht_keys_hash_the_tagged_domain() {
    let key = DarkResolver::domain_to_dht_key("mynode.dark");
    assert_eq!(key, blake3::hash(b"dark_domain:mynode.dark").as_bytes().to_vec());
    assert_ne!(key, DarkResolver::domain_to_dht_key("other.dark"));
}

#[test]
fn signable_bytes_cover_every_field() {
    let owner = PeerId::from_bytes([4; 32]);
    let rec = record(vec![1, 2], vec![NetworkAddress::new([1, 2, 3, 4], 80)], Some("al".to_string()), 60, owner, 1000);
    let encoded = vec![vec![9u8, 9], vec![8u8]];
    let digest = rec.to_signable_bytes(&encoded, &[7u8; 3]);
    let mut input = vec![1u8, 2];
    input.extend_from_slice(&[7u8; 1184]);
    input.extend_from_slice(&[9, 9, 8]);
    input.extend_from_slice(b"al");
    input.extend_from_slice(&60u32.to_le_bytes());
    input.extend_from_slice(&1000u64.to_le_bytes());
    input.extend_from_slice(&1060u64.to_le_bytes());
    input.extend_from_slice(&[7u8; 3]);
    assert_eq!(digest, blake3::hash(&input).as_bytes().to_vec());
    let mut changed = rec.clone();
    changed.ttl = 61;
    assert_ne!(changed.to_signable_bytes(&encoded, &[7u8; 3]), digest);
}

#[test]
fn a_record_whose_signature_is_refused_is_not_returned() {
    let mut resolver = DarkResolver::new();
    let now = 1_000;
    let rec = record(vec![21u8; 1952], vec![NetworkAddress::new([1, 1, 1, 1], 1)], None, 100, PeerId::random(), now);
    resolver.register_domain(Some("signed"), rec).unwrap();
    assert!(resolver.lookup_domain_at("signed.dark", now, &accept).is_ok());
    assert!(matches!(resolver.lookup_domain_at("signed.dark", now, &reject), Err(DarkResolverError::InvalidSignature)));
    assert!(matches!(resolver.resolve_addresses_at("signed.dark", now, &reject), Err(DarkResolverError::InvalidSignature)));
    let newer = record(vec![21u8; 1952], vec![], None, 100, PeerId::random(), now);
    assert!(matches!(resolver.update_domain_at("signed.dark", newer, now, &reject), Err(DarkResolverError::InvalidSignature)));
    assert_eq!(resolver.resolve_addresses_at("signed.dark", now, &accept).unwrap(), vec![NetworkAddress::new([1, 1, 1, 1], 1)]);
    let bad_domain = record(vec![21u8; 1952], vec![], None, 100, PeerId::random(), now);
    assert!(matches!(resolver.update_domain_at("x.dark", bad_domain, now, &accept), Err(DarkResolverError::InvalidDomain)));
}

#[test]
fn records_fetched_remotely_are_checked_then_kept() {
    let mut resolver = DarkResolver::new();
    let stale = record(vec![22u8; 1952], vec![], None, 10, PeerId::random(), 0);
    assert!(matches!(resolver.accept_remote_record_at("remote.dark", stale, 100, &accept), Err(DarkResolverError::DomainExpired)));
    let fresh = record(vec![22u8; 1952], vec![NetworkAddress::new([2, 2, 2, 2], 2)], None, 1000, PeerId::random(), 0);
    let copy = fresh.clone();
    assert!(matches!(resolver.accept_remote_record_at("remote.dark", fresh, 100, &reject), Err(DarkResolverError::InvalidSignature)));
    assert!(matches!(resolver.lookup_domain_at("remote.dark", 100, &accept), Err(DarkResolverError::DomainNotFound)));
    resolver.accept_remote_record_at("remote.dark", copy, 100, &accept).unwrap();
    assert_eq!(resolver.resolve_addresses_at("remote.dark", 100, &accept).unwrap(), vec![NetworkAddress::new([2, 2, 2, 2], 2)]);
}

#[test]
fn expired_domains_are_listed_before_cleanup() {
    let mut resolver = DarkResolver::new();
    resolver.register_domain(Some("old"), record(vec![23u8; 1952], vec![], None, 10, PeerId::random(), 0)).unwrap();
    resolver.register_domain(Some("new"), record(vec![24u8; 1952], vec![], None, 1000, PeerId::random(), 0)).unwrap();
    assert_eq!(resolver.expired_domains_at(5), Vec::<String>::new());
    assert_eq!(resolver.expired_domains_at(100), vec!["old.dark".to_string()]);
    assert_eq!(resolver.cleanup_expired_at(100).unwrap(), 1);
    assert!(resolver.expired_domains_at(100).is_empty());
}

#[test]
fn short_keys_still_get_an_address() {
    let pk = vec![1u8, 2, 3, 4, 5, 6, 7, 8, 9, 10];
    let a1 = DarkResolver::generate_dark_address(&pk, None).unwrap();
    assert!(a1.address.len() >= 20);
    assert!(a1.domain.ends_with(".dark"));
    assert_eq!(DarkResolver::generate_dark_address(&pk, Some("mynode")).unwrap().domain, "mynode.dark");
    assert!(matches!(DarkResolver::generate_dark_address(&pk, Some("ab")), Err(DarkResolverError::InvalidDomain)));
    assert!(DarkResolver::generate_dark_address(&[], None).is_ok());
}

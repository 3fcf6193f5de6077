use qudag_network::dns::{bearer, record_url, records_url, CloudflareConfig, DnsError, DnsManager, DnsRecord, RecordType};

fn setup_test_config() -> CloudflareConfig {
    CloudflareConfig::new("test_token".to_string(), "test_zone".to_string())
}

fn create_test_record() -> DnsRecord {
    DnsRecord {
        name: "test.example.com".to_string(),
        record_type: RecordType::A,
        content: "192.0.2.1".to_string(),
        ttl: 3600,
        proxied: false,
    }
}

fn message(r: Result<(), DnsError>) -> String {
    match r {
        Err(DnsError::ValidationError(m)) => m,
        other => panic!("expected a validation error, got {:?}", other),
    }
}

#[test]
fn test_record_validation() {
    let dns_manager = DnsManager::new(setup_test_config());
    let valid_record = create_test_record();
    assert!(dns_manager.validate_record(&valid_record).is_ok());

    let mut invalid_record = valid_record.clone();
    invalid_record.name = "invalid@name".to_string();
    assert!(dns_manager.validate_record(&invalid_record).is_err());

    let mut invalid_record = valid_record.clone();
    invalid_record.content = "256.256.256.256".to_string();
    assert!(dns_manager.validate_record(&invalid_record).is_err());

    let mut invalid_record = valid_record.clone();
    invalid_record.ttl = 30;
    assert!(dns_manager.validate_record(&invalid_record).is_err());
}

#[test]
fn credentials_are_kept() {
    let config = setup_test_config();
    assert_eq!(config.api_token(), "test_token");
    assert_eq!(config.zone_id(), "test_zone");
    let manager = DnsManager::new(config);
    assert_eq!(manager.config.zone_id(), "test_zone");
}

#[test]
fn each_rule_has_its_message() {
    let m = DnsManager::new(setup_test_config());
    let base = create_test_record();

    let mut r = base.clone();
    r.name = String::new();
    assert_eq!(message(m.validate_record(&r)), "Invalid record name length");
    r.name = "a".repeat(256);
    assert_eq!(message(m.validate_record(&r)), "Invalid record name length");
    r.name = "a".repeat(255);
    assert!(m.validate_record(&r).is_ok());
    r.name = "bad name".to_string();
    assert_eq!(message(m.validate_record(&r)), "Invalid characters in record name");

    let mut r = base.clone();
    r.content = "1.2.3".to_string();
    assert_eq!(message(m.validate_record(&r)), "Invalid IPv4 address");
    r.content = "1.2.3.4.5".to_string();
    assert_eq!(message(m.validate_record(&r)), "Invalid IPv4 address");
    r.content = "+1.02.3.255".to_string();
    assert!(m.validate_record(&r).is_ok());

    let mut r = base.clone();
    r.record_type = RecordType::AAAA;
    r.content = "2001:db8::1".to_string();
    assert!(m.validate_record(&r).is_ok());
    r.content = "2001.db8".to_string();
    assert_eq!(message(m.validate_record(&r)), "Invalid IPv6 address");
    r.content = format!("{}:", "a".repeat(39));
    assert_eq!(message(m.validate_record(&r)), "Invalid IPv6 address");

    let mut r = base.clone();
    r.record_type = RecordType::TXT;
    r.content = "x".repeat(255);
    assert!(m.validate_record(&r).is_ok());
    r.content = "x".repeat(256);
    assert_eq!(message(m.validate_record(&r)), "TXT record too long");

    let mut r = base.clone();
    r.record_type = RecordType::CNAME;
    r.content = "target.example.com".to_string();
    assert!(m.validate_record(&r).is_ok());
    r.content = "target_example".to_string();
    assert_eq!(message(m.validate_record(&r)), "Invalid CNAME value");

    let mut r = base.clone();
    r.ttl = 60;
    assert!(m.validate_record(&r).is_ok());
    r.ttl = 86400;
    assert!(m.validate_record(&r).is_ok());
    r.ttl = 86401;
    assert_eq!(message(m.validate_record(&r)), "TTL must be between 60 and 86400 seconds");
}

#[test]
fn request_targets_and_authorization() {
    let config = setup_test_config();
    assert_eq!(records_url(&config), "https://api.cloudflare.com/client/v4/zones/test_zone/dns_records");
    assert_eq!(record_url(&config, "abc123"), "https://api.cloudflare.com/client/v4/zones/test_zone/dns_records/abc123");
    assert_eq!(bearer(&config), "Bearer test_token");
}

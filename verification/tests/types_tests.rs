use qudag_network::security_analysis::{MessagePriority as ReviewPriority, SecurityAnalyzer};
use qudag_network::types::{MessagePriority, NetworkAddress, PeerId};

#[test]
fn basic_test_test_message_priority_memory_safety() {
    let priorities = vec![ReviewPriority::High, ReviewPriority::Normal, ReviewPriority::Low];
    for priority in priorities {
        match priority {
            ReviewPriority::High => assert!(true),
            ReviewPriority::Normal => assert!(true),
            ReviewPriority::Low => assert!(true),
        }
    }
}

#[test]
fn simple_test_test_message_priority_memory_safety() {
    let priorities = vec![MessagePriority::High, MessagePriority::Normal, MessagePriority::Low];
    for priority in priorities {
        match priority {
            MessagePriority::High => {}
            MessagePriority::Normal => {}
            MessagePriority::Low => {}
        }
    }
}

#[test]
fn test_network_address_creation() {
    let addr = NetworkAddress::new([127, 0, 0, 1], 8080);
    assert_eq!(addr.port, 8080);
    assert_eq!(addr.ip, [127, 0, 0, 1]);
}

#[test]
fn test_network_address_serialization() {
    let addr = NetworkAddress::new([127, 0, 0, 1], 8080);
    assert_eq!(addr.port, 8080);
    assert_eq!(addr.ip, [127, 0, 0, 1]);
}

#[test]
fn test_network_address_equality() {
    let addr1 = NetworkAddress::new([192, 168, 1, 1], 80);
    let addr2 = NetworkAddress::new([192, 168, 1, 1], 80);
    let addr3 = NetworkAddress::new([192, 168, 1, 2], 80);
    assert_eq!(addr1, addr2);
    assert_ne!(addr1, addr3);
}

#[test]
fn socket_text_of_an_address() {
    assert_eq!(NetworkAddress::new([127, 0, 0, 1], 8080).to_socket_addr(), "127.0.0.1:8080");
    assert_eq!(NetworkAddress::new([255, 10, 0, 200], 0).to_socket_addr(), "255.10.0.200:0");
    assert_eq!(NetworkAddress::new([0, 0, 0, 0], 65535).to_socket_addr(), "0.0.0.0:65535");
}

#[test]
fn peer_identity_comparison() {
    let a = PeerId::from_bytes([7u8; 32]);
    let mut other = [7u8; 32];
    other[31] = 8;
    let b = PeerId::from_bytes(other);
    assert!(a.same_as(&PeerId::from_bytes([7u8; 32])));
    assert!(!a.same_as(&b));
    assert_eq!(b.to_bytes(), other);
}

#[test]
fn random_peers_differ() {
    let a = PeerId::random();
    let b = PeerId::random();
    assert!(!a.same_as(&b));
}

#[test]
fn security_review_checklists() {
    let ops = SecurityAnalyzer::check_constant_time_ops();
    assert_eq!(ops.len(), 3);
    assert_eq!(ops[0], "NetworkAddress creation should be constant time");
    let mem = SecurityAnalyzer::check_memory_safety();
    assert_eq!(mem[1], "Priority enum should have no memory issues");
    let side = SecurityAnalyzer::analyze_side_channels();
    assert_eq!(side.len(), 2);
    assert_eq!(side[1], "Port number handling should be timing-attack resistant");
}

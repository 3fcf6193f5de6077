use qudag_network::discovery::{discovery_quota, KademliaPeerDiscovery};
use qudag_network::types::NetworkAddress;

#[test]
fn test_discovery_creation() {
    let discovery = KademliaPeerDiscovery::new(Vec::new(), 50, 30);
    assert!(!discovery.discovery_active);
    assert!(!discovery.bootstrap_completed);
}

#[test]
fn test_bootstrap() {
    let nodes = vec![NetworkAddress::new([127, 0, 0, 1], 8000)];
    let mut discovery = KademliaPeerDiscovery::new(nodes, 50, 30);

    let announced = discovery.bootstrap();
    assert!(discovery.bootstrap_completed);
    assert_eq!(announced, vec![NetworkAddress::new([127, 0, 0, 1], 8000)]);
}

#[test]
fn bootstrap_tries_each_node_once() {
    let a = NetworkAddress::new([10, 0, 0, 1], 8000);
    let b = NetworkAddress::new([10, 0, 0, 2], 8000);
    let c = NetworkAddress::new([10, 0, 0, 1], 8001);
    let mut discovery = KademliaPeerDiscovery::new(vec![a, b, a, c], 50, 30);
    assert_eq!(discovery.bootstrap(), vec![a, b, c]);
    assert_eq!(discovery.bootstrap_tried, vec![a, b, c]);
    assert!(discovery.bootstrap().is_empty());
    assert_eq!(discovery.bootstrap_tried.len(), 3);
}

#[test]
fn start_and_stop() {
    let mut discovery = KademliaPeerDiscovery::new(Vec::new(), 50, 30);
    assert!(discovery.start());
    assert!(discovery.discovery_active);
    assert!(!discovery.start());
    discovery.stop();
    assert!(!discovery.discovery_active);
    assert!(discovery.start());
}

#[test]
fn static_peers_are_kept_once() {
    let mut discovery = KademliaPeerDiscovery::new(Vec::new(), 50, 30);
    let a = NetworkAddress::new([192, 168, 1, 5], 9000);
    discovery.add_static_peer(a);
    discovery.add_static_peer(NetworkAddress::new([192, 168, 1, 5], 9001));
    discovery.add_static_peer(a);
    assert_eq!(discovery.static_peers.len(), 2);
}

#[test]
fn discovery_rounds_fill_up_to_the_maximum() {
    assert_eq!(discovery_quota(0, 50), 5);
    assert_eq!(discovery_quota(47, 50), 3);
    assert_eq!(discovery_quota(50, 50), 0);
    assert_eq!(discovery_quota(60, 50), 0);
}

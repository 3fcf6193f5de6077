use qudag_network::dag_consensus::SerializedVertex;
use qudag_network::metrics::{LatencyMetrics, LATENCY_SAMPLES};
use qudag_network::peer::PeerId as RawPeerId;
use qudag_network::router::{HopInfo, Router};
use qudag_network::routing::{
    admit_route, build_routed_message, CircuitBreakerState, DarkAddressingConfig, PeerTopology, RedundancyLevel, RouteTarget,
    RoutingError,
};
use qudag_network::types::{NetworkError, PeerId};

#[test]
fn routing_errors() {
    let e = RoutingError::MessageTooLarge { size: 2000, limit: 1024 };
    assert!(e.is_message_too_large());
    assert!(!RoutingError::NoRoute.is_message_too_large());
    assert_eq!(RoutingError::too_large_message(2000, 1024), "Message too large: 2000 bytes exceeds limit of 1024 bytes");
}

#[test]
fn redundancy_paths() {
    assert_eq!(RedundancyLevel::Single.path_count(), 1);
    assert_eq!(RedundancyLevel::Basic.path_count(), 2);
    assert_eq!(RedundancyLevel::High.path_count(), 3);
    assert_eq!(RedundancyLevel::Maximum.path_count(), 5);
    let _ = DarkAddressingConfig::default();
}

#[test]
fn hop_knowledge() {
    let me = PeerId::from_bytes([1; 32]);
    let hop = HopInfo::new(me, vec![PeerId::from_bytes([2; 32])], vec![(0, vec![9; 32]), (2, vec![8; 32])]);
    assert!(hop.knows_peer(&PeerId::from_bytes([2; 32])));
    assert!(!hop.knows_peer(&PeerId::from_bytes([3; 32])));
    assert!(hop.can_decrypt_layer(0));
    assert!(!hop.can_decrypt_layer(1));
    assert!(hop.can_decrypt_layer(2));
}

#[test]
fn latency_average_and_window() {
    let mut m = LatencyMetrics::default();
    m.record_latency(100);
    assert_eq!(m.avg_latency, 100);
    m.record_latency(200);
    assert_eq!(m.avg_latency, 150);
    m.record_latency(60);
    assert_eq!(m.avg_latency, 120);
    assert_eq!(m.peak_latency, 200);
    for _ in 0..LATENCY_SAMPLES {
        m.record_latency(1);
    }
    assert_eq!(m.latency_samples.len(), LATENCY_SAMPLES);
    assert!(m.latency_samples.iter().all(|&x| x == 1));
    assert_eq!(m.peak_latency, 200);
}

#[test]
fn raw_peer_ids() {
    let p = RawPeerId::from_bytes(vec![1, 2, 3]);
    assert_eq!(p.as_bytes(), &[1, 2, 3]);
    let q = RawPeerId::new();
    assert_eq!(q.as_bytes().len(), 8);
}

#[test]
fn vertex_construction() {
    let v = SerializedVertex::new(vec![1], vec![vec![0]], vec![5, 6], 42);
    assert_eq!(v.id, vec![1]);
    assert_eq!(v.parents, vec![vec![0]]);
    assert_eq!(v.payload, vec![5, 6]);
    assert_eq!(v.timestamp, 42);
    assert!(v.author.is_empty());
    assert!(v.signature.is_empty());
}

#[test]
fn route_admission() {
    let peer = RouteTarget::Peer { peer_text: "12D3KooW".to_string(), breaker: None };
    assert_eq!(admit_route(10, 1024, &peer, false), Ok(()));
    assert_eq!(
        admit_route(2000, 1024, &peer, true),
        Err(RoutingError::MessageTooLarge { size: 2000, limit: 1024 })
    );
    let open = RouteTarget::Peer {
        peer_text: "12D3KooW".to_string(),
        breaker: Some(CircuitBreakerState::Open { opened_at: 1, failure_count: 5 }),
    };
    assert_eq!(
        admit_route(10, 1024, &open, true),
        Err(RoutingError::CircuitBreakerOpen { peer_id: "12D3KooW".to_string() })
    );
    let half = RouteTarget::Peer {
        peer_text: "x".to_string(),
        breaker: Some(CircuitBreakerState::HalfOpen { test_count: 0, success_count: 0 }),
    };
    assert_eq!(admit_route(10, 1024, &half, true), Ok(()));
    assert_eq!(admit_route(10, 1024, &RouteTarget::Shadow, true), Ok(()));
    assert_eq!(admit_route(10, 1024, &RouteTarget::Shadow, false), Err(RoutingError::DarkAddressingUnavailable));
}

#[test]
fn routed_message_layout() {
    let hops = vec![vec![1u8, 2], vec![3u8]];
    let out = build_routed_message(&hops, b"hi");
    assert_eq!(out, vec![2, 0, 0, 0, 1, 2, 3, b'h', b'i']);
    assert_eq!(build_routed_message(&[], &[]), vec![0, 0, 0, 0]);
}

#[test]
fn peer_topology_connections() {
    let a = PeerId::from_bytes([1; 32]);
    let b = PeerId::from_bytes([2; 32]);
    let c = PeerId::from_bytes([3; 32]);
    let mut t = PeerTopology::new();
    t.add_peer_connection(a, b);
    t.add_peer_connection(a, b);
    t.add_peer_connection(a, c);
    t.add_peer_connection(b, a);
    assert_eq!(t.connections.len(), 2);
    assert_eq!(t.connections[0].1, vec![b, c]);
    t.remove_peer_connection(a, b);
    assert_eq!(t.connections[0].1, vec![c]);
    t.remove_peer_connection(a, c);
    assert_eq!(t.connections.len(), 1);
    assert_eq!(t.connections[0].0, b);
    t.remove_peer_connection(c, a);
    assert_eq!(t.connections.len(), 1);
}

#[test]
fn router_peers_and_hops() {
    let mut router = Router::new();
    assert!(router.peers.is_empty());
    let a = PeerId::from_bytes([1; 32]);
    let b = PeerId::from_bytes([2; 32]);
    let c = PeerId::from_bytes([3; 32]);
    router.add_peer_knowing(a, vec![]);
    router.add_peer_knowing(b, vec![a]);
    router.add_peer_knowing(c, vec![a, b]);
    router.add_peer_knowing(b, vec![c]);
    assert_eq!(router.peers, vec![a, b, c]);
    assert_eq!(router.hop_info.len(), 3);
    let hop = router.get_hop_info(&b).unwrap();
    assert!(hop.knows_peer(&c));
    assert!(!hop.knows_peer(&a));
    assert!(hop.can_decrypt_layer(4));
    assert!(!hop.can_decrypt_layer(5));
    assert_eq!(hop.layer_keys[3].1, vec![3u8; 32]);
    match router.get_hop_info(&PeerId::from_bytes([9; 32])) {
        Err(NetworkError::RoutingError(m)) => assert_eq!(m, "Hop information not found"),
        _ => panic!("expected an error"),
    }
    assert_eq!(router.route_flood(), vec![a, b, c]);
    assert_eq!(Router::route_direct(&[7u8; 32]).unwrap(), vec![PeerId::from_bytes([7; 32])]);
    assert!(matches!(Router::route_direct(&[7u8; 31]), Err(NetworkError::RoutingError(_))));
    let relays = router.relay_candidates(&a.to_bytes(), &c.to_bytes(), 1).unwrap();
    assert_eq!(relays, vec![b]);
    assert!(router.relay_candidates(&a.to_bytes(), &c.to_bytes(), 2).is_err());
    assert_eq!(router.relay_candidates(&[1, 2], &[], 3).unwrap().len(), 3);
}

#[test]
fn removing_a_new_connection_restores_the_topology() {
    let a = PeerId::from_bytes([1; 32]);
    let b = PeerId::from_bytes([2; 32]);
    let c = PeerId::from_bytes([3; 32]);
    let mut t = PeerTopology::new();
    t.add_peer_connection(a, b);
    t.add_peer_connection(c, a);
    let before = t.connections.clone();
    t.add_peer_connection(a, c);
    t.remove_peer_connection(a, c);
    assert_eq!(t.connections, before);
    t.add_peer_connection(c, b);
    t.remove_peer_connection(c, b);
    assert_eq!(t.connections, before);
}

#[test]
fn random_subsets_come_from_the_known_peers() {
    let mut router = Router::new();
    assert!(router.route_random_subset(3).is_empty());
    let peers = [PeerId::from_bytes([1; 32]), PeerId::from_bytes([2; 32]), PeerId::from_bytes([3; 32])];
    for p in peers {
        router.add_peer_knowing(p, vec![]);
    }
    let two = router.route_random_subset(2);
    assert_eq!(two.len(), 2);
    assert_ne!(two[0], two[1]);
    assert!(two.iter().all(|p| peers.contains(p)));
    let all = router.route_random_subset(5);
    assert_eq!(all.len(), 3);
    assert!(peers.iter().all(|p| all.contains(p)));
}

#[test]
fn a_new_hop_knows_some_of_the_others_never_itself() {
    let mut router = Router::new();
    let p = |b: u8| PeerId::from_bytes([b; 32]);
    router.add_peer(p(1));
    assert!(router.get_hop_info(&p(1)).unwrap().known_peers.is_empty());
    router.add_peer(p(2));
    let h = router.get_hop_info(&p(2)).unwrap();
    assert_eq!(h.known_peers, vec![p(1)]);
    for b in 3..=10 {
        router.add_peer(p(b));
    }
    let h = router.get_hop_info(&p(10)).unwrap();
    assert_eq!(h.known_peers.len(), 3);
    let mut distinct = h.known_peers.clone();
    distinct.sort_by_key(|q| q.to_bytes());
    distinct.dedup();
    assert_eq!(distinct.len(), 3);
    assert!(!h.known_peers.contains(&p(10)));
    assert!(h.known_peers.iter().all(|q| router.peers.contains(q)));
    assert!(h.can_decrypt_layer(4));
    assert!(!h.can_decrypt_layer(5));
    router.add_peer(p(10));
    assert_eq!(router.peers.len(), 10);
    assert_eq!(router.hop_info.len(), 10);
}

#[test]
fn latency_average_stays_between_the_extremes() {
    let mut m = LatencyMetrics::default();
    let history = [400u64, 10, 900, 55, 300, 7, 1000, 2];
    for (n, &l) in history.iter().enumerate() {
        m.record_latency(l);
        let seen = &history[..=n];
        let lo = *seen.iter().min().unwrap();
        let hi = *seen.iter().max().unwrap();
        assert!(lo <= m.avg_latency && m.avg_latency <= hi);
        assert_eq!(m.peak_latency, hi);
        assert_eq!(*m.latency_samples.last().unwrap(), l);
    }
}

use qudag_network::nat_traversal::{
    analyze_nat_type, nat_detection_result, ConnectionType, HolePunchCoordinator, HolePunchPhase, ConnectionUpgradeManager, NatPmpClient, NatTraversalConfig,
    NatTraversalError, NatTraversalStats, NatType, PortMapper, PortMappingMethod, PortMappingProtocol, RelayManager,
    RelayServer, UpgradeStep, UpnpManager, next_traversal_step, record_traversal_success, traversal_failed, TraversalStep, gather_local_candidates, PortMapping, record_upgrade,
};
use qudag_network::types::NetworkError;
use qudag_network::types::{NetworkAddress, PeerId};

fn config(upnp: bool, nat_pmp: bool) -> NatTraversalConfig {
    NatTraversalConfig {
        enable_stun: true,
        enable_turn: true,
        enable_upnp: upnp,
        enable_nat_pmp: nat_pmp,
        enable_hole_punching: true,
        enable_relay: true,
        enable_ipv6: true,
        max_relay_connections: 50,
        hole_punch_timeout_ms: 30_000,
        detection_interval_ms: 300_000,
        upgrade_interval_ms: 60_000,
        port_mapping_lifetime_ms: 7_200_000,
    }
}

fn mapper(upnp: bool, nat_pmp: bool) -> PortMapper {
    PortMapper {
        config: config(upnp, nat_pmp),
        upnp_manager: UpnpManager::new(1_000),
        nat_pmp_client: NatPmpClient::new(),
        port_mappings: Vec::new(),
        stats: NatTraversalStats::default(),
    }
}

fn relay(id: u8, load: u32, available: bool) -> RelayServer {
    RelayServer {
        id: PeerId::from_bytes([id; 32]),
        address: format!("/ip4/10.0.0.{}/tcp/4001", id),
        capacity: 100,
        load,
        is_available: available,
        last_health_check: None,
    }
}

#[test]
fn test_nat_type_properties() {
    assert_eq!(NatType::NoNat, NatType::NoNat);
    assert_ne!(NatType::FullCone, NatType::Symmetric);
}

#[test]
fn nat_type_from_stun_answers() {
    let local = NetworkAddress::new([192, 168, 1, 5], 4000);
    let public = NetworkAddress::new([203, 0, 113, 7], 50000);
    assert_eq!(analyze_nat_type(&[NetworkAddress::new([192, 168, 1, 5], 1)], &local), NatType::NoNat);
    assert_eq!(analyze_nat_type(&[public, public, public], &local), NatType::RestrictedCone);
    let other_port = NetworkAddress::new([203, 0, 113, 7], 50001);
    assert_eq!(analyze_nat_type(&[public, other_port], &local), NatType::Symmetric);
    assert_eq!(analyze_nat_type(&[public], &local), NatType::RestrictedCone);
}

#[test]
fn test_nat_detection() {
    let local = NetworkAddress::new([10, 0, 0, 2], 9000);
    match nat_detection_result(&[], &local) {
        Err(NatTraversalError::DetectionError(m)) => assert_eq!(m, "No STUN servers responded"),
        _ => panic!("expected a detection error"),
    }
    let public = NetworkAddress::new([198, 51, 100, 1], 40000);
    let (nat, addr) = nat_detection_result(&[public, public], &local).unwrap();
    assert_eq!(nat, NatType::RestrictedCone);
    assert_eq!(addr, public);
}

#[test]
fn port_mapping_by_upnp() {
    let mut m = mapper(true, true);
    let mapping = m.create_port_mapping_at(4001, 4001, PortMappingProtocol::TCP, 1_000).unwrap();
    assert_eq!(mapping.method, PortMappingMethod::Upnp);
    assert_eq!(mapping.created_at, 1_000);
    assert_eq!(mapping.expires_at, 1_000 + 7_200_000);
    assert_eq!(m.port_mappings.len(), 1);
    assert_eq!(m.stats.port_mappings_created, 1);
    assert_eq!(m.upnp_manager.mappings.len(), 1);
    // Mapping the same port again replaces the earlier mapping.
    let again = m.create_port_mapping_at(4001, 5001, PortMappingProtocol::UDP, 2_000).unwrap();
    assert_eq!(again.external_port, 5001);
    assert_eq!(m.port_mappings.len(), 1);
    assert_eq!(m.port_mappings[0].1, again);
    assert_eq!(m.stats.port_mappings_created, 2);
}

#[test]
fn port_mapping_by_nat_pmp_needs_a_gateway() {
    let mut m = mapper(false, true);
    match m.create_port_mapping_at(4001, 4001, PortMappingProtocol::UDP, 0) {
        Err(NatTraversalError::UpnpError(msg)) => assert_eq!(msg, "All port mapping methods failed"),
        _ => panic!("expected a failure"),
    }
    assert_eq!(m.stats.port_mappings_failed, 1);
    assert!(m.port_mappings.is_empty());
    assert!(m.nat_pmp_client.discover_gateway().is_err());
    m.nat_pmp_client.gateway = Some([192, 168, 1, 1]);
    let mapping = m.create_port_mapping_at(4001, 4002, PortMappingProtocol::UDP, 10).unwrap();
    assert_eq!(mapping.method, PortMappingMethod::NatPmp);
    assert_eq!(m.nat_pmp_client.mappings.len(), 1);
    assert!(!m.nat_pmp_client.mappings[0].1.is_tcp);
}

#[test]
fn nat_pmp_client_without_gateway() {
    let mut client = NatPmpClient::new();
    match client.create_mapping_at(1, 2, true, 3, 4) {
        Err(NatTraversalError::NatPmpError(m)) => assert_eq!(m, "No gateway discovered"),
        _ => panic!("expected an error"),
    }
    let mut upnp = UpnpManager::new(5);
    let m = upnp.create_mapping_at(80, 8080, PortMappingProtocol::TCP, "web", 100, 7).unwrap();
    assert_eq!(m.description, "web");
    assert_eq!(m.created_at, 7);
}

#[test]
fn relay_selection_prefers_least_load() {
    let mut manager = RelayManager::new();
    assert_eq!(manager.select_relay_server(), None);
    manager.add_relay_server(relay(1, 5, true));
    manager.add_relay_server(relay(2, 2, false));
    manager.add_relay_server(relay(3, 2, true));
    manager.add_relay_server(relay(4, 2, true));
    assert_eq!(manager.select_relay_server(), Some(2));

    let target = PeerId::from_bytes([9; 32]);
    let conn = manager.establish_relay_at(target, 77, 1_000).unwrap();
    assert_eq!(conn.relay_server, PeerId::from_bytes([3; 32]));
    assert_eq!(conn.connection_id, 77);
    assert_eq!(conn.established_at, 1_000);
    assert_eq!(manager.relay_servers[2].load, 3);
    assert_eq!(manager.stats.total_connections, 1);
    assert_eq!(manager.stats.active_connections, 1);
    // A second relay to the same peer replaces the first one.
    let conn2 = manager.establish_relay_at(target, 78, 2_000).unwrap();
    assert_eq!(conn2.relay_server, PeerId::from_bytes([4; 32]));
    assert_eq!(manager.relay_connections.len(), 1);
    manager.close_relay(&target);
    assert!(manager.relay_connections.is_empty());
}

#[test]
fn relay_without_available_servers_fails() {
    let mut manager = RelayManager::new();
    manager.add_relay_server(relay(1, 0, false));
    match manager.establish_relay_at(PeerId::from_bytes([2; 32]), 1, 1) {
        Err(NatTraversalError::RelayError(m)) => assert_eq!(m, "No relay servers available"),
        _ => panic!("expected a relay error"),
    }
}

#[test]
fn connection_upgrades() {
    let peer = PeerId::from_bytes([5; 32]);
    let mut manager = ConnectionUpgradeManager::new(60_000);
    assert_eq!(manager.begin_upgrade_at(peer, ConnectionType::Direct, 0).unwrap(), UpgradeStep::AlreadyDirect);
    assert!(manager.upgrade_attempts.is_empty());
    match manager.begin_upgrade_at(peer, ConnectionType::Relay, 1_000) {
        Err(NatTraversalError::UpgradeError(m)) => assert_eq!(m, "Too soon to retry"),
        _ => panic!("expected too soon"),
    }
    assert_eq!(manager.begin_upgrade_at(peer, ConnectionType::Relay, 61_000).unwrap(), UpgradeStep::Attempt);
    assert_eq!(manager.upgrade_attempts[0].attempt_count, 1);
    assert_eq!(manager.upgrade_attempts[0].last_attempt, 61_000);
    manager.record_upgrade_success(&peer);
    assert!(manager.upgrade_attempts[0].succeeded);

    let mut eager = ConnectionUpgradeManager::new(0);
    assert_eq!(eager.begin_upgrade_at(peer, ConnectionType::Turn, 5).unwrap(), UpgradeStep::Attempt);
}

#[test]
fn hole_punch_bookkeeping() {
    let l1 = NetworkAddress::new([10, 0, 0, 1], 1);
    let l2 = NetworkAddress::new([10, 0, 0, 1], 2);
    let r1 = NetworkAddress::new([1, 1, 1, 1], 3);
    let r2 = NetworkAddress::new([1, 1, 1, 1], 4);
    let r3 = NetworkAddress::new([1, 1, 1, 1], 5);
    let pairs = HolePunchCoordinator::candidate_pairs(&[l1, l2], &[r1, r2, r3]);
    assert_eq!(pairs, vec![(l1, r1), (l1, r2), (l1, r3), (l2, r1), (l2, r2), (l2, r3)]);
    assert!(HolePunchCoordinator::candidate_pairs(&[], &[r1]).is_empty());

    let mut c = HolePunchCoordinator::new(30_000);
    let a = PeerId::from_bytes([1; 32]);
    let b = PeerId::from_bytes([2; 32]);
    c.begin_attempt_at(a, vec![l1], vec![r1], 10);
    c.begin_attempt_at(b, vec![l2], vec![r2], 11);
    c.begin_attempt_at(a, vec![l2], vec![r3], 12);
    assert_eq!(c.attempts.len(), 2);
    assert_eq!(c.attempts[1].started_at, 12);
    assert_eq!(c.attempts[1].phase, HolePunchPhase::Probing);
    c.mark_success(&a);
    c.mark_failure(&b);
    assert_eq!(c.attempts[1].phase, HolePunchPhase::Connected);
    assert!(c.attempts[1].succeeded);
    assert_eq!(c.attempts[0].phase, HolePunchPhase::Failed);
    assert!(!c.attempts[0].succeeded);
}

#[test]
fn traversal_tries_direct_then_hole_punch_then_relay() {
    let mut stats = NatTraversalStats::default();
    let all = config(true, true);
    assert_eq!(next_traversal_step(&all, &mut stats, TraversalStep::Direct), TraversalStep::HolePunch);
    assert_eq!(next_traversal_step(&all, &mut stats, TraversalStep::HolePunch), TraversalStep::Relay);
    assert_eq!(stats.hole_punch_failures, 1);
    assert_eq!(next_traversal_step(&all, &mut stats, TraversalStep::Relay), TraversalStep::GiveUp);

    let mut no_punch = config(true, true);
    no_punch.enable_hole_punching = false;
    assert_eq!(next_traversal_step(&no_punch, &mut stats, TraversalStep::Direct), TraversalStep::Relay);
    let mut nothing = no_punch;
    nothing.enable_relay = false;
    assert_eq!(next_traversal_step(&nothing, &mut stats, TraversalStep::Direct), TraversalStep::GiveUp);
    let mut punch_only = config(true, true);
    punch_only.enable_relay = false;
    assert_eq!(next_traversal_step(&punch_only, &mut stats, TraversalStep::HolePunch), TraversalStep::GiveUp);
    assert_eq!(stats.hole_punch_failures, 2);

    record_traversal_success(&mut stats, TraversalStep::HolePunch);
    record_traversal_success(&mut stats, TraversalStep::Relay);
    record_traversal_success(&mut stats, TraversalStep::Direct);
    assert_eq!(stats.hole_punch_success, 1);
    assert_eq!(stats.relay_connections, 1);
    match traversal_failed() {
        NatTraversalError::ConnectionError(NetworkError::ConnectionError(m)) => assert_eq!(m, "All connection methods failed"),
        _ => panic!("unexpected error"),
    }
}

#[test]
fn local_candidates_from_public_address_and_mappings() {
    let m = |port: u16| PortMapping {
        local_port: 1,
        external_port: port,
        protocol: PortMappingProtocol::UDP,
        method: PortMappingMethod::Upnp,
        created_at: 0,
        expires_at: 0,
    };
    let maps = [m(9000), m(9001)];
    assert_eq!(
        gather_local_candidates(Some([1, 2, 3, 4]), Some(7000), &maps),
        vec![
            NetworkAddress::new([1, 2, 3, 4], 7000),
            NetworkAddress::new([1, 2, 3, 4], 9000),
            NetworkAddress::new([1, 2, 3, 4], 9001)
        ]
    );
    assert_eq!(
        gather_local_candidates(Some([1, 2, 3, 4]), None, &maps),
        vec![NetworkAddress::new([1, 2, 3, 4], 9000), NetworkAddress::new([1, 2, 3, 4], 9001)]
    );
    assert!(gather_local_candidates(None, Some(7000), &maps).is_empty());
}

#[test]
fn upgrades_move_a_connection_off_the_relays() {
    let mut stats = NatTraversalStats::default();
    record_traversal_success(&mut stats, TraversalStep::Relay);
    record_upgrade(&mut stats);
    assert_eq!(stats.upgraded_connections, 1);
    assert_eq!(stats.relay_connections, 0);
    record_upgrade(&mut stats);
    assert_eq!(stats.relay_connections, u32::MAX);
}

#[test]
fn new_relay_manager_counts_nothing() {
    let manager = RelayManager::new();
    assert!(manager.relay_servers.is_empty());
    assert!(manager.relay_connections.is_empty());
    assert_eq!(manager.stats.total_connections, 0);
    assert_eq!(manager.stats.active_connections, 0);
    assert_eq!(manager.stats.bytes_relayed, 0);
    assert_eq!(manager.stats.failed_attempts, 0);
}

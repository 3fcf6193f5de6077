use qudag_network::connection::{ConnectionTable, HealthMonitor, RetryProgress, RetryStats, RetryStep, WarmingConfig, WarmingManager, WarmingState};
use qudag_network::connection::{
    connect_refusal, decide_connect_at, needs_recovery, recovery_backoff, ConnectDecision, RECOVERY_ATTEMPTS,
    select_best_response_time, select_round_robin, CircuitBreaker, LoadBalancer, LoadBalancingStrategy, CircuitBreakerState, ConnectionHealthTracker,
    ConnectionLimits, ConnectionMultiplexer, HealthCheckConfig, HealthCheckType, LoadBalancingStats, PingHealthCheck,
    Priority, StreamId, StreamState,
};
use qudag_network::connection_pool::{is_connection_valid_at, should_keep_connection_at, PoolConfig};
use qudag_network::discovery::{
    meets_capability_requirements, next_circuit_state, should_attempt_connection_at, CircuitBreakerState as PeerCircuit,
    DHTConfig, DarkResolverConfig, GeoPreferences, LoadBalancer as PeerBalancer, LoadBalancingAlgorithm, PeerCapabilities,
};
use qudag_network::types::{ConnectionStatus, NetworkError, PeerId};

fn peer(b: u8) -> PeerId {
    PeerId::from_bytes([b; 32])
}

#[test]
fn connection_breaker_cycle() {
    let mut cb = CircuitBreaker::default();
    for i in 0..4 {
        cb.record_result_at(false, i);
        assert_eq!(cb.state, CircuitBreakerState::Closed);
    }
    cb.record_result_at(false, 10);
    assert_eq!(cb.state, CircuitBreakerState::Open);
    assert_eq!(cb.opened_at, Some(10));
    assert!(!cb.allow_request_at(60_009));
    assert!(cb.allow_request_at(60_010));
    assert_eq!(cb.state, CircuitBreakerState::HalfOpen);
    cb.record_result_at(true, 60_011);
    cb.record_result_at(true, 60_012);
    assert_eq!(cb.state, CircuitBreakerState::HalfOpen);
    cb.record_result_at(true, 60_013);
    assert_eq!(cb.state, CircuitBreakerState::Closed);
    assert_eq!(cb.failure_count, 0);
}

#[test]
fn half_open_failure_reopens() {
    let mut cb = CircuitBreaker::default();
    cb.state = CircuitBreakerState::HalfOpen;
    cb.record_result_at(false, 7);
    assert_eq!(cb.state, CircuitBreakerState::Open);
    assert_eq!(cb.opened_at, Some(7));
    assert_eq!(cb.failure_count, 1);
    let mut closed = CircuitBreaker::default();
    closed.record_result_at(false, 1);
    closed.record_result_at(true, 2);
    assert_eq!(closed.failure_count, 0);
}

#[test]
fn stream_multiplexing() {
    let mut mux = ConnectionMultiplexer::new(2, 1000);
    let a = peer(1);
    assert!(matches!(mux.open_stream_at(a, Priority::Normal, 0), Err(NetworkError::ConnectionError(_))));
    mux.add_connection(a);
    assert_eq!(mux.find_connection(&a), Some(0));
    let s0 = mux.open_stream_at(a, Priority::High, 5).unwrap();
    let s1 = mux.open_stream_at(a, Priority::High, 6).unwrap();
    assert_eq!(s0, StreamId(0));
    assert_eq!(s1, StreamId(1));
    match mux.open_stream_at(a, Priority::Low, 7) {
        Err(NetworkError::ConnectionError(m)) => assert_eq!(m, "Maximum streams reached"),
        _ => panic!("expected a refusal"),
    }
    assert_eq!(mux.connections[0].streams[0].state, StreamState::Opening);
    assert_eq!(mux.connections[0].streams[1].created_at, 6);
    assert_eq!(mux.priority_queue.len(), 1);
    assert_eq!(mux.priority_queue[0].1, vec![s0, s1]);
    mux.close_stream(s0).unwrap();
    assert_eq!(mux.connections[0].streams.len(), 1);
    assert_eq!(mux.stream_routes.len(), 1);
    match mux.close_stream(s0) {
        Err(NetworkError::ConnectionError(m)) => assert_eq!(m, "Stream not found"),
        _ => panic!("expected a refusal"),
    }
    assert_eq!(mux.open_stream_at(a, Priority::Low, 8).unwrap(), StreamId(2));
}

#[test]
fn round_robin_and_response_time_selection() {
    let peers = vec![peer(1), peer(2), peer(3)];
    assert_eq!(select_round_robin(&[], 4), None);
    assert_eq!(select_round_robin(&peers, 4), Some(peer(2)));
    let stats = LoadBalancingStats {
        total_requests: 0,
        peer_distribution: Vec::new(),
        avg_response_times: vec![(peer(3), 20), (peer(2), 40)],
    };
    assert_eq!(select_best_response_time(&peers, &stats), peer(3));
    let empty = LoadBalancingStats { total_requests: 0, peer_distribution: Vec::new(), avg_response_times: Vec::new() };
    assert_eq!(select_best_response_time(&peers, &empty), peer(1));
}

#[test]
fn defaults() {
    let limits = ConnectionLimits::default();
    assert_eq!(limits.max_total, 1000);
    assert_eq!(limits.idle_timeout_ms, 300_000);
    let hc = HealthCheckConfig::default();
    assert_eq!(hc.check_type, HealthCheckType::Ping);
    assert_eq!(hc.failure_threshold, 3);
    assert_eq!(PingHealthCheck::default().timeout_ms, 5000);
    let tracker = ConnectionHealthTracker::default();
    assert_eq!(tracker.check_interval_ms, 30_000);
    assert!(tracker.unhealthy_connections.is_empty());
    let pool = PoolConfig::default();
    assert_eq!(pool.max_size, 100);
    assert_eq!(pool.max_reuse_count, 1000);
    let dht = DHTConfig::default();
    let _ = dht.clone();
    let _ = DarkResolverConfig::default();
    let _ = GeoPreferences::default();
}

#[test]
fn pooled_connection_validity() {
    let config = PoolConfig::default();
    assert!(is_connection_valid_at(&config, 0, 0, 0, true, 1000));
    assert!(!is_connection_valid_at(&config, 0, 0, 0, false, 1000));
    assert!(is_connection_valid_at(&config, 0, 3_300_000, 0, true, 3_600_000));
    assert!(!is_connection_valid_at(&config, 0, 3_300_000, 0, true, 3_600_001));
    assert!(!is_connection_valid_at(&config, 0, 0, 0, true, 300_001));
    assert!(!is_connection_valid_at(&config, 0, 0, 1000, true, 1));
    assert!(should_keep_connection_at(&config, 0, 0, 0, true, 99, 1));
    assert!(!should_keep_connection_at(&config, 0, 0, 0, true, 100, 1));
}

#[test]
fn discovered_peer_circuit_transitions() {
    let mut state = PeerCircuit::Closed;
    for attempts in 1..5u64 {
        state = next_circuit_state(state, false, attempts, 100);
        assert_eq!(state, PeerCircuit::Closed);
    }
    state = next_circuit_state(state, false, 5, 100);
    assert_eq!(state, PeerCircuit::Open { opened_at: 100, failure_count: 5 });
    assert_eq!(next_circuit_state(state, false, 6, 200), state);
    let half = PeerCircuit::HalfOpen { test_requests: 1, successful_tests: 0 };
    let half = next_circuit_state(half, true, 7, 300);
    assert_eq!(half, PeerCircuit::HalfOpen { test_requests: 0, successful_tests: 1 });
    let half = next_circuit_state(half, true, 8, 300);
    assert_eq!(next_circuit_state(half, true, 9, 300), PeerCircuit::Closed);
    assert_eq!(
        next_circuit_state(half, false, 9, 400),
        PeerCircuit::Open { opened_at: 400, failure_count: 9 }
    );
    assert_eq!(next_circuit_state(state, true, 10, 500), PeerCircuit::Closed);
}

#[test]
fn capability_requirements() {
    let mut caps = PeerCapabilities::default();
    caps.supported_message_types = vec!["gossip".to_string()];
    caps.protocol_versions = vec!["qudag/1".to_string()];
    assert!(meets_capability_requirements(&[], &caps));
    assert!(meets_capability_requirements(&["gossip".to_string(), "qudag/1".to_string()], &caps));
    assert!(!meets_capability_requirements(&["gossip".to_string(), "relay".to_string()], &caps));
}

#[test]
fn connection_attempt_decisions() {
    let closed = PeerCircuit::Closed;
    assert!(should_attempt_connection_at(false, closed, true, true, 0, None, 0));
    assert!(!should_attempt_connection_at(true, closed, true, true, 0, None, 0));
    assert!(!should_attempt_connection_at(false, closed, false, true, 0, None, 0));
    assert!(!should_attempt_connection_at(false, closed, true, false, 0, None, 0));
    let open = PeerCircuit::Open { opened_at: 1_000, failure_count: 5 };
    assert!(!should_attempt_connection_at(false, open, true, true, 0, None, 60_999));
    assert!(should_attempt_connection_at(false, open, true, true, 0, None, 61_000));
    let busy = PeerCircuit::HalfOpen { test_requests: 3, successful_tests: 0 };
    assert!(!should_attempt_connection_at(false, busy, true, true, 0, None, 0));
    // After 4 attempts the back-off is 16 * 30 s.
    assert!(!should_attempt_connection_at(false, closed, true, true, 4, Some(0), 479_999));
    assert!(should_attempt_connection_at(false, closed, true, true, 4, Some(0), 480_000));
    assert!(should_attempt_connection_at(false, closed, true, true, 3, Some(0), 0));
}

#[test]
fn load_balancer_strategies_and_counts() {
    let peers = vec![peer(1), peer(2), peer(3)];
    let mut rr = LoadBalancer::new(LoadBalancingStrategy::RoundRobin);
    assert_eq!(rr.select_connection(&[], peer(9)), None);
    assert_eq!(rr.stats.total_requests, 0);
    let picks: Vec<PeerId> = (0..4).map(|_| rr.select_connection(&peers, peer(9)).unwrap()).collect();
    assert_eq!(picks, vec![peer(1), peer(2), peer(3), peer(1)]);
    assert_eq!(rr.round_robin_counter, 4);
    assert_eq!(rr.stats.total_requests, 4);
    assert_eq!(rr.stats.peer_distribution, vec![(peer(1), 2), (peer(2), 1), (peer(3), 1)]);

    let mut w = LoadBalancer::new(LoadBalancingStrategy::WeightedRoundRobin);
    assert_eq!(w.select_connection(&peers, peer(2)), Some(peer(2)));
    assert_eq!(w.round_robin_counter, 0);

    let mut rt = LoadBalancer::new(LoadBalancingStrategy::ResponseTime);
    rt.stats.avg_response_times = vec![(peer(2), 5), (peer(3), 9)];
    assert_eq!(rt.select_connection(&peers, peer(9)), Some(peer(2)));

    let mut lc = LoadBalancer::new(LoadBalancingStrategy::LeastConnections);
    assert_eq!(lc.select_connection(&peers, peer(9)), Some(peer(1)));
}

#[test]
fn peer_balancer_round_robin_and_first() {
    let peers = [peer(1), peer(2), peer(3)];
    let mut rr = PeerBalancer::new(LoadBalancingAlgorithm::RoundRobin);
    assert_eq!(rr.select_peer(&peers), Some(peer(1)));
    assert_eq!(rr.select_peer(&peers), Some(peer(2)));
    assert_eq!(rr.select_peer(&peers), Some(peer(3)));
    assert_eq!(rr.select_peer(&peers), Some(peer(1)));
    assert_eq!(rr.round_robin_index, 1);
    assert_eq!(rr.select_peer(&[]), None);
    assert_eq!(rr.select_peer(&peers[..1]), Some(peer(1)));
    assert_eq!(rr.round_robin_index, 0);
    let mut hashing = PeerBalancer::new(LoadBalancingAlgorithm::ConsistentHashing);
    assert_eq!(hashing.select_peer(&peers), Some(peer(1)));
}

#[test]
fn peer_balancer_least_connections() {
    let peers = [peer(1), peer(2), peer(3)];
    let mut lc = PeerBalancer::new(LoadBalancingAlgorithm::LeastConnections);
    lc.update_metrics(peer(1), 5, None);
    lc.update_metrics(peer(2), 2, None);
    lc.update_metrics(peer(3), 2, None);
    assert_eq!(lc.select_peer(&peers), Some(peer(2)));
    lc.update_metrics(peer(2), 7, None);
    assert_eq!(lc.connections_of(&peer(2)), 7);
    assert_eq!(lc.select_peer(&peers), Some(peer(3)));
    assert_eq!(lc.select_peer(&[peer(1), peer(9)]), Some(peer(9)));
    assert_eq!(lc.connection_counts.len(), 3);
}

#[test]
fn peer_balancer_least_response_time() {
    let peers = [peer(1), peer(2), peer(3)];
    let mut lr = PeerBalancer::new(LoadBalancingAlgorithm::LeastResponseTime);
    lr.update_metrics(peer(1), 0, Some(30));
    lr.update_metrics(peer(2), 0, Some(10));
    assert_eq!(lr.select_peer(&peers), Some(peer(2)));
    lr.update_metrics(peer(2), 0, Some(50));
    assert_eq!(lr.select_peer(&peers), Some(peer(1)));
    assert_eq!(lr.response_key_of(&peer(3)), u128::MAX);
    assert_eq!(lr.select_peer(&[peer(3), peer(4)]), Some(peer(3)));
    for t in 0..12u64 {
        lr.update_metrics(peer(1), 0, Some(100 + t));
    }
    assert_eq!(lr.response_times[0].1.len(), 10);
    assert_eq!(lr.response_times[0].1[0], 102);
    assert_eq!(lr.response_key_of(&peer(1)), 111);
}

#[test]
fn peer_balancer_random_stays_within_the_peers() {
    let peers = [peer(1), peer(2), peer(3)];
    for rule in [LoadBalancingAlgorithm::Random, LoadBalancingAlgorithm::WeightedRoundRobin] {
        let mut b = PeerBalancer::new(rule);
        for _ in 0..20 {
            let p = b.select_peer(&peers).unwrap();
            assert!(peers.contains(&p));
        }
        assert_eq!(b.select_peer(&[]), None);
    }
}

#[test]
fn connect_decisions() {
    assert_eq!(decide_connect_at(false, Some((0, true)), 300_000, 0, 10, 1), ConnectDecision::BreakerOpen);
    assert_eq!(decide_connect_at(true, Some((1_000, true)), 300_000, 9, 10, 300_999), ConnectDecision::ReusePooled);
    assert_eq!(
        decide_connect_at(true, Some((1_000, true)), 300_000, 10, 10, 300_999),
        ConnectDecision::MaxConnections { drop_pooled: false }
    );
    assert_eq!(
        decide_connect_at(true, Some((1_000, true)), 300_000, 3, 10, 301_000),
        ConnectDecision::Establish { drop_pooled: true }
    );
    assert_eq!(
        decide_connect_at(true, Some((1_000, false)), 300_000, 10, 10, 2_000),
        ConnectDecision::MaxConnections { drop_pooled: true }
    );
    assert_eq!(decide_connect_at(true, None, 300_000, 9, 10, 0), ConnectDecision::Establish { drop_pooled: false });
    assert_eq!(decide_connect_at(true, None, 300_000, 10, 10, 0), ConnectDecision::MaxConnections { drop_pooled: false });
    match connect_refusal(ConnectDecision::BreakerOpen) {
        Some(NetworkError::ConnectionError(m)) => assert_eq!(m, "Circuit breaker is open for this peer"),
        _ => panic!("an open breaker refuses"),
    }
    assert!(connect_refusal(ConnectDecision::MaxConnections { drop_pooled: true }).is_none());
    assert!(connect_refusal(ConnectDecision::ReusePooled).is_none());
    assert!(connect_refusal(ConnectDecision::Establish { drop_pooled: false }).is_none());
}

#[test]
fn recovery_waits_double_then_give_up() {
    assert_eq!(recovery_backoff(1), Some(200));
    assert_eq!(recovery_backoff(2), Some(400));
    assert_eq!(recovery_backoff(3), Some(800));
    assert_eq!(recovery_backoff(4), Some(1600));
    assert_eq!(recovery_backoff(5), None);
    assert_eq!(RECOVERY_ATTEMPTS, 5);
}

#[test]
fn connections_needing_recovery() {
    assert!(needs_recovery(&ConnectionStatus::Failed("x".to_string()), true));
    assert!(needs_recovery(&ConnectionStatus::Disconnected, true));
    assert!(needs_recovery(&ConnectionStatus::Connected, false));
    assert!(!needs_recovery(&ConnectionStatus::Connected, true));
    assert!(!needs_recovery(&ConnectionStatus::Connecting, true));
}

#[test]
fn streams_queue_by_priority() {
    let mut mux = ConnectionMultiplexer::new(10, 1000);
    let a = peer(1);
    mux.add_connection(a);
    let s0 = mux.open_stream_at(a, Priority::Low, 1).unwrap();
    let s1 = mux.open_stream_at(a, Priority::Critical, 2).unwrap();
    let s2 = mux.open_stream_at(a, Priority::Low, 3).unwrap();
    assert_eq!(mux.priority_queue.len(), 2);
    assert_eq!(mux.priority_queue[0], (Priority::Low, vec![s0, s2]));
    assert_eq!(mux.priority_queue[1], (Priority::Critical, vec![s1]));
}

#[test]
fn retries_stop_at_success_or_after_the_last_attempt() {
    let mut stats = RetryStats::default();
    let mut p = RetryProgress::start(100);
    assert_eq!(p.after_attempt(false, 3, &mut stats), RetryStep::RetryAfter { backoff_ms: 100 });
    p.grow_backoff(200, 30_000);
    assert_eq!(p.after_attempt(false, 3, &mut stats), RetryStep::RetryAfter { backoff_ms: 200 });
    p.grow_backoff(40_000, 30_000);
    assert_eq!(p.backoff_ms, 30_000);
    assert_eq!(p.after_attempt(false, 3, &mut stats), RetryStep::GaveUp);
    assert_eq!(p.attempt, 3);
    assert_eq!((stats.total_attempts, stats.successful_retries, stats.failed_retries), (1, 0, 1));
    let mut q = RetryProgress::start(5);
    assert_eq!(q.after_attempt(true, 3, &mut stats), RetryStep::Succeeded);
    assert_eq!(q.attempt, 0);
    assert_eq!((stats.total_attempts, stats.successful_retries, stats.failed_retries), (2, 1, 1));
    let mut once = RetryProgress::start(5);
    assert_eq!(once.after_attempt(false, 0, &mut stats), RetryStep::GaveUp);
}

#[test]
fn the_connection_table_never_exceeds_its_limit() {
    let mut table = ConnectionTable::new(2, 1_000);
    let p1 = PeerId::from_bytes([1; 32]);
    let p2 = PeerId::from_bytes([2; 32]);
    let p3 = PeerId::from_bytes([3; 32]);
    assert_eq!(table.connect_at(p1, true, false, 0), ConnectDecision::Establish { drop_pooled: false });
    assert_eq!(table.connect_at(p2, true, false, 0), ConnectDecision::Establish { drop_pooled: false });
    assert_eq!(table.connect_at(p3, true, false, 0), ConnectDecision::MaxConnections { drop_pooled: false });
    assert_eq!(table.connection_count(), 2);
    assert!(matches!(table.get_status(&p1), Some(ConnectionStatus::Connecting)));
    table.update_status(p1, ConnectionStatus::Connected);
    assert!(matches!(table.get_status(&p1), Some(ConnectionStatus::Connected)));
    table.disconnect_at(&p1, true, 100);
    assert!(table.get_status(&p1).is_none());
    assert_eq!(table.connection_count(), 1);
    assert!(matches!(table.pooled_status(&p1), Some((ConnectionStatus::Connected, 100))));
    // the pooled connection of p1 is reused while there is room
    assert_eq!(table.connect_at(p1, true, true, 500), ConnectDecision::ReusePooled);
    assert_eq!(table.connection_count(), 2);
    // at the limit a fresh healthy pooled connection is not reused
    table.disconnect_at(&p2, true, 600);
    assert_eq!(table.connect_at(p3, true, false, 600), ConnectDecision::Establish { drop_pooled: false });
    assert_eq!(table.connect_at(p2, true, true, 700), ConnectDecision::MaxConnections { drop_pooled: false });
    assert_eq!(table.connection_count(), 2);
    assert_eq!(table.connect_at(p2, false, true, 700), ConnectDecision::BreakerOpen);
    // pooled connections older than the timeout are forgotten
    table.disconnect_at(&p3, false, 2_000);
    assert!(table.pooled_status(&p2).is_none());
    assert!(table.pooled_status(&p3).is_none());
}

#[test]
fn warming_tracks_state_and_statistics() {
    let config = WarmingConfig { enabled: true, min_pool_size: 10, warming_timeout_ms: 30_000, warming_retries: 3 };
    let mut w = WarmingManager::new(config);
    let p = PeerId::from_bytes([7; 32]);
    assert_eq!(w.get_warming_state(&p), WarmingState::Cold);
    assert!(w.begin_warming(p));
    assert_eq!(w.get_warming_state(&p), WarmingState::Warming);
    assert!(w.finish_warming(p, true, 100).is_ok());
    assert_eq!(w.get_warming_state(&p), WarmingState::Warm);
    // the average counts the new success twice over, as (0 * 1 + 100) / 2
    assert_eq!(w.stats.avg_warming_time_ms, 50);
    assert!(w.begin_warming(p));
    match w.finish_warming(p, false, 5) {
        Err(NetworkError::ConnectionError(m)) => assert_eq!(m, "Connection warming failed"),
        _ => panic!("a failed warming is an error"),
    }
    assert_eq!(w.get_warming_state(&p), WarmingState::FailedToWarm("Warming timeout".to_string()));
    assert_eq!((w.stats.total_attempts, w.stats.successful_warmings, w.stats.failed_warmings), (2, 1, 1));
    let mut off = WarmingManager::new(WarmingConfig { enabled: false, ..config });
    assert!(!off.begin_warming(p));
    assert_eq!(off.get_warming_state(&p), WarmingState::Cold);
}

#[test]
fn health_checks_are_scheduled_and_counted() {
    let mut m = HealthMonitor::new(HealthCheckConfig::default());
    let p = PeerId::from_bytes([8; 32]);
    m.start_monitoring_at(p, 1_000);
    assert_eq!(m.scheduler.scheduled_checks, vec![(p, 31_000)]);
    assert_eq!(m.scheduler.check_intervals, vec![(p, 30_000)]);
    let ok = PingHealthCheck::default().check_at(true, true, 40, 2_000);
    assert!(ok.success && ok.error.is_none());
    m.record_check(p, ok);
    assert_eq!(m.stats.avg_response_time_ms, 20);
    let bad = PingHealthCheck::default().check_at(false, true, 10, 3_000);
    assert_eq!(bad.error, Some("Ping timeout".to_string()));
    m.record_check(p, bad);
    assert_eq!((m.stats.total_checks, m.stats.successful_checks, m.stats.failed_checks), (2, 1, 1));
    assert!(!m.get_health_result(&p).unwrap().success);
    assert!(m.get_health_result(&PeerId::from_bytes([9; 32])).is_none());
}

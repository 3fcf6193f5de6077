use qudag_network::connection::WarmingState;
use qudag_network::connection_pool::{ConnectionPool, PoolConfig};
use qudag_network::types::{NetworkError, PeerId};

fn peer(b: u8) -> PeerId {
    PeerId::from_bytes([b; 32])
}

fn config_with(max_size: usize, min_size: usize) -> PoolConfig {
    let mut config = PoolConfig::default();
    config.max_size = max_size;
    config.min_size = min_size;
    config
}

#[test]
fn test_pool_creation() {
    let config = PoolConfig::default();
    let pool = ConnectionPool::new(config);

    let stats = pool.get_stats();
    assert_eq!(stats.current_size, 0);
    assert_eq!(stats.available, 0);
    assert_eq!(stats.active, 0);
}

#[test]
fn test_connection_acquisition() {
    let config = config_with(10, 0);
    let mut pool = ConnectionPool::new(config);
    let peer_id = PeerId::random();

    let conn = pool.acquire_at(peer_id, 1_000).unwrap();
    assert_eq!(conn.connection.usage_count, 1);

    let stats = pool.get_stats();
    assert_eq!(stats.acquisitions, 1);
    assert_eq!(stats.total_created, 1);
}

#[test]
fn test_connection_release() {
    let config = PoolConfig::default();
    let mut pool = ConnectionPool::new(config);
    let peer_id = PeerId::random();

    let conn = pool.acquire_at(peer_id, 1_000).unwrap();
    pool.release_at(peer_id, conn.lease, conn.connection, 1_010);

    let stats = pool.get_stats();
    assert_eq!(stats.releases, 1);
    assert_eq!(stats.available, 1);
}

#[test]
fn test_connection_reuse() {
    let config = PoolConfig::default();
    let mut pool = ConnectionPool::new(config);
    let peer_id = PeerId::random();

    let conn1 = pool.acquire_at(peer_id, 1_000).unwrap();
    let created_at = conn1.connection.created_at;
    pool.release_at(peer_id, conn1.lease, conn1.connection, 1_010);

    let conn2 = pool.acquire_at(peer_id, 1_020).unwrap();
    assert_eq!(conn2.connection.created_at, created_at);
    assert_eq!(conn2.connection.usage_count, 2);

    let stats = pool.get_stats();
    assert_eq!(stats.total_created, 1);
    assert_eq!(stats.acquisitions, 2);
}

#[test]
fn test_pool_limits() {
    let mut config = PoolConfig::default();
    config.max_size = 2;
    config.acquire_timeout_ms = 100;
    let mut pool = ConnectionPool::new(config);
    let peer_id = PeerId::random();

    let conn1 = pool.acquire_at(peer_id, 1_000).unwrap();
    let conn2 = pool.acquire_at(peer_id, 1_001).unwrap();

    let result = pool.acquire_at(peer_id, 1_002);
    assert!(result.is_err());

    pool.release_at(peer_id, conn1.lease, conn1.connection, 1_103);
    let conn3 = pool.acquire_at(peer_id, 1_104);
    assert!(conn3.is_ok());

    pool.release_at(peer_id, conn2.lease, conn2.connection, 1_105);
    let conn3 = conn3.unwrap();
    pool.release_at(peer_id, conn3.lease, conn3.connection, 1_106);
}

#[test]
fn test_connection_expiration() {
    let mut config = PoolConfig::default();
    config.idle_timeout_ms = 100;
    config.health_check_interval_ms = 50;
    let mut pool = ConnectionPool::new(config);
    let peer_id = PeerId::random();

    let conn = pool.acquire_at(peer_id, 1_000).unwrap();
    pool.release_at(peer_id, conn.lease, conn.connection, 1_000);

    pool.run_maintenance_at(1_200);

    let stats = pool.get_stats();
    assert_eq!(stats.available, 0);
}

#[test]
fn fresh_connections_follow_the_warming_setting() {
    let mut pool = ConnectionPool::new(PoolConfig::default());
    let warm = pool.acquire_at(peer(1), 500).unwrap();
    assert_eq!(warm.connection.warming_state, WarmingState::Warm);
    assert_eq!(warm.connection.created_at, 500);
    assert_eq!(warm.connection.last_used, 500);
    assert_eq!(warm.connection.max_streams, 100);
    assert_eq!(warm.connection.active_streams, 0);
    assert_eq!(warm.lease, 0);

    let mut config = PoolConfig::default();
    config.enable_warming = false;
    let mut cold_pool = ConnectionPool::new(config);
    let cold = cold_pool.acquire_at(peer(1), 500).unwrap();
    assert_eq!(cold.connection.warming_state, WarmingState::Cold);
}

#[test]
fn shut_down_pool_refuses_and_drops_returns() {
    let mut pool = ConnectionPool::new(config_with(10, 0));
    let a = pool.acquire_at(peer(1), 0).unwrap();
    let b = pool.acquire_at(peer(2), 0).unwrap();
    pool.release_at(peer(1), a.lease, a.connection, 1);
    pool.shutdown();
    let stats = pool.get_stats();
    assert_eq!(stats.total_destroyed, 2);
    assert_eq!(stats.current_size, 0);
    match pool.acquire_at(peer(1), 2) {
        Err(NetworkError::ConnectionError(m)) => assert_eq!(m, "Pool is shutting down"),
        _ => panic!("a shut-down pool must refuse"),
    }
    pool.release_at(peer(2), b.lease, b.connection, 3);
    assert_eq!(pool.get_stats().releases, 1);
    assert_eq!(pool.get_stats().available, 0);
}

#[test]
fn exhausted_peer_times_out_other_peers_do_not() {
    let mut pool = ConnectionPool::new(config_with(1, 0));
    let _a = pool.acquire_at(peer(1), 0).unwrap();
    match pool.acquire_at(peer(1), 1) {
        Err(NetworkError::ConnectionError(m)) => assert_eq!(m, "Connection acquisition timeout"),
        _ => panic!("the second checkout of a peer must time out"),
    }
    assert_eq!(pool.get_stats().timeouts, 1);
    assert!(pool.acquire_at(peer(2), 2).is_ok());
    assert_eq!(pool.get_peer_connection_count(&peer(1)), 1);
    assert_eq!(pool.get_total_connection_count(), 2);
}

#[test]
fn stale_idle_connections_are_skipped_on_checkout() {
    let mut config = config_with(10, 0);
    config.idle_timeout_ms = 100;
    let mut pool = ConnectionPool::new(config);
    let first = pool.acquire_at(peer(1), 0).unwrap();
    let second = pool.acquire_at(peer(1), 0).unwrap();
    pool.release_at(peer(1), first.lease, first.connection, 0);
    pool.release_at(peer(1), second.lease, second.connection, 150);
    // at 200 the first is idle for 200 ms, the second for 50 ms
    let got = pool.acquire_at(peer(1), 200).unwrap();
    assert_eq!(got.connection.last_used, 200);
    assert_eq!(got.connection.usage_count, 2);
    assert_eq!(pool.get_stats().available, 0);
    assert_eq!(pool.get_stats().total_created, 2);
}

#[test]
fn full_pool_destroys_returned_connections() {
    let mut pool = ConnectionPool::new(config_with(1, 0));
    let a = pool.acquire_at(peer(1), 0).unwrap();
    pool.release_at(peer(1), a.lease, a.connection, 1);
    let stats = pool.get_stats();
    assert_eq!(stats.total_destroyed, 1);
    assert_eq!(stats.releases, 0);
    assert_eq!(stats.available, 0);
    assert_eq!(stats.active, 0);
}

#[test]
fn maintenance_tops_up_each_idle_peer() {
    let mut pool = ConnectionPool::new(config_with(10, 4));
    let a = pool.acquire_at(peer(1), 0).unwrap();
    let b = pool.acquire_at(peer(2), 0).unwrap();
    let c = pool.acquire_at(peer(3), 0).unwrap();
    pool.release_at(peer(1), a.lease, a.connection, 10);
    pool.release_at(peer(2), b.lease, b.connection, 10);
    // two idle, one checked out: one missing, made once for each idle peer
    pool.run_maintenance_at(20);
    let stats = pool.get_stats();
    assert_eq!(stats.available, 4);
    assert_eq!(stats.active, 1);
    assert_eq!(stats.total_created, 5);
    assert_eq!(pool.get_peer_connection_count(&peer(1)), 2);
    assert_eq!(pool.get_peer_connection_count(&peer(2)), 2);
    assert_eq!(pool.get_peer_connection_count(&peer(3)), 1);
    pool.release_at(peer(3), c.lease, c.connection, 30);
    assert_eq!(pool.get_stats().available, 5);
}

#[test]
fn unhealthy_connections_are_not_kept() {
    let mut pool = ConnectionPool::new(config_with(10, 0));
    let mut a = pool.acquire_at(peer(1), 0).unwrap();
    a.connection.quality_ok = false;
    assert!(!a.connection.is_healthy_at(1));
    pool.release_at(peer(1), a.lease, a.connection, 1);
    assert_eq!(pool.get_stats().total_destroyed, 1);
    let b = pool.acquire_at(peer(1), 0).unwrap();
    assert!(b.connection.is_healthy_at(299_999));
    assert!(!b.connection.is_healthy_at(300_000));
}

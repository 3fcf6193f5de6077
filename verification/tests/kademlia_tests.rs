use qudag_network::kademlia::QueryOutcome;
use qudag_network::kademlia::{
    calculate_xor_distance, concat_bytes, estimate_network_size, get_bucket_index, BootstrapConfig, BootstrapState,
    BootstrapStep, ContentRoutingConfig, DHTMetrics, KademliaDHT, BUCKET_COUNT,
};
use qudag_network::types::{NetworkAddress, NetworkError};

fn dht_with_nodes(count: usize, min_connections: usize, timeout_ms: u64) -> KademliaDHT {
    let mut config = BootstrapConfig::default();
    for i in 0..count {
        config.nodes.push((vec![i as u8; 32], NetworkAddress::new([127, 0, 0, 1], 8000 + i as u16)));
    }
    config.min_connections = min_connections;
    config.timeout_ms = timeout_ms;
    KademliaDHT::new(vec![0u8; 32], config, ContentRoutingConfig::default())
}

#[test]
fn test_bootstrap_state() {
    let state = BootstrapState::NotStarted;
    assert_eq!(state, BootstrapState::NotStarted);

    let state = BootstrapState::InProgress { start_time: 1_000, connected_nodes: 5, attempted_nodes: 10 };
    if let BootstrapState::InProgress { connected_nodes, .. } = state {
        assert_eq!(connected_nodes, 5);
    }
}

#[test]
fn test_dht_creation() {
    let dht = KademliaDHT::new(vec![9u8; 32], BootstrapConfig::default(), ContentRoutingConfig::default());
    assert!(!dht.is_bootstrapped());
    assert_eq!(dht.routing_table_size(), 0);
    assert_eq!(dht.get_metrics().total_queries, 0);
    assert_eq!(dht.partition_detector.last_successful_queries.len(), BUCKET_COUNT as usize);
}

#[test]
fn xor_distance_counts_common_leading_bits() {
    assert_eq!(calculate_xor_distance(&[0xFF, 0x00], &[0xFF, 0x00]), 16);
    assert_eq!(calculate_xor_distance(&[0xFF, 0x00], &[0xFF, 0x80]), 8);
    assert_eq!(calculate_xor_distance(&[0x00, 0x00], &[0x01, 0x00]), 7);
    assert_eq!(calculate_xor_distance(&[0x10], &[0x00]), 3);
    assert_eq!(calculate_xor_distance(&[0xAA, 0xBB, 0xCC], &[0xAA]), 8);
    assert_eq!(calculate_xor_distance(&[], &[1, 2]), 0);
}

#[test]
fn bucket_index_mirrors_distance() {
    assert_eq!(get_bucket_index(0), 159);
    assert_eq!(get_bucket_index(159), 0);
    assert_eq!(get_bucket_index(8), 151);
}

#[test]
fn network_size_estimates() {
    assert_eq!(estimate_network_size(&[0u8; 4], &[]), 1);
    // Distances 8 and 4 average to 6: 2^6.
    let peers = vec![vec![0x00, 0x80, 0, 0], vec![0x08, 0, 0, 0]];
    assert_eq!(estimate_network_size(&[0u8; 4], &peers), 64);
    // Identical ids are at distance 32, capped at 31.
    let same = vec![vec![0u8; 4]];
    assert_eq!(estimate_network_size(&[0u8; 4], &same), 1usize << 31);
}

#[test]
fn bootstrap_completes_with_enough_nodes() {
    let mut dht = dht_with_nodes(3, 3, 30_000);
    let step = dht.bootstrap_at(5_000);
    assert_eq!(step, BootstrapStep::Completed { peers_discovered: 3, attempted: 3 });
    assert!(dht.is_bootstrapped());
    assert_eq!(
        dht.bootstrap_state,
        BootstrapState::Completed { completion_time: 5_000, connected_nodes: 3, duration: 0 }
    );
    assert_eq!(dht.get_metrics().bootstrap_attempts, 1);
    assert_eq!(dht.get_metrics().successful_bootstraps, 1);
    assert_eq!(dht.bootstrap_at(6_000), BootstrapStep::AlreadyBootstrapped);
    assert_eq!(dht.get_metrics().bootstrap_attempts, 1);
}

#[test]
fn bootstrap_with_too_few_nodes_waits_then_fails() {
    let mut dht = dht_with_nodes(1, 3, 30_000);
    let step = dht.bootstrap_at(100);
    assert_eq!(step, BootstrapStep::WaitThenFail { connected: 1, attempted: 1, timeout_ms: 30_000 });
    assert_eq!(
        dht.bootstrap_state,
        BootstrapState::InProgress { start_time: 100, connected_nodes: 0, attempted_nodes: 0 }
    );
    assert_eq!(dht.bootstrap_at(200), BootstrapStep::AlreadyInProgress);
    dht.handle_bootstrap_result();
    assert_eq!(
        dht.bootstrap_state,
        BootstrapState::InProgress { start_time: 100, connected_nodes: 1, attempted_nodes: 0 }
    );
    let err = dht.fail_bootstrap_at(30_100, 1, 1);
    assert!(matches!(err, NetworkError::BootstrapFailed));
    match &dht.bootstrap_state {
        BootstrapState::Failed { failure_time, reason, attempted_nodes } => {
            assert_eq!(*failure_time, 30_100);
            assert_eq!(reason, "Only 1 of 3 required nodes connected");
            assert_eq!(*attempted_nodes, 1);
        }
        other => panic!("unexpected state {:?}", other),
    }
    // A failed bootstrap may be retried.
    assert!(matches!(dht.bootstrap_at(40_000), BootstrapStep::WaitThenFail { .. }));
    assert_eq!(dht.get_metrics().bootstrap_attempts, 2);
    assert_eq!(dht.get_metrics().successful_bootstraps, 0);
}

#[test]
fn zero_timeout_never_completes() {
    let mut dht = dht_with_nodes(5, 3, 0);
    assert!(matches!(dht.bootstrap_at(1), BootstrapStep::WaitThenFail { connected: 5, attempted: 5, timeout_ms: 0 }));
}

#[test]
fn query_metrics() {
    let mut dht = dht_with_nodes(0, 3, 30_000);
    dht.record_query_success(100);
    assert_eq!(dht.get_metrics().successful_queries, 1);
    assert_eq!(dht.get_metrics().avg_query_time_ns, 50);
    dht.handle_record_stored(151);
    assert_eq!(dht.get_metrics().records_stored, 1);
    assert_eq!(dht.get_metrics().successful_queries, 2);
    assert_eq!(dht.get_metrics().avg_query_time_ns, 100);
    dht.record_query_failure();
    assert_eq!(dht.get_metrics().failed_queries, 1);
    let zero = DHTMetrics::default();
    assert_eq!(zero.records_stored, 0);
}

#[test]
fn partition_detection_lists_silent_buckets() {
    let mut dht = dht_with_nodes(0, 3, 30_000);
    // Buckets 159 and 151 answer at time 1000.
    dht.check_network_partition_at(&[0, 8], 1_000);
    assert_eq!(dht.partition_detector.last_successful_queries[159], Some(1_000));
    assert_eq!(dht.partition_detector.last_successful_queries[151], Some(1_000));
    assert!(dht.partition_detector.detected_partitions.is_empty());
    // Later, only bucket 159 answers; bucket 151 has been silent too long.
    dht.check_network_partition_at(&[0], 1_000 + 300_001);
    assert_eq!(dht.partition_detector.detected_partitions.len(), 1);
    let p = &dht.partition_detector.detected_partitions[0];
    assert_eq!(p.affected_buckets, vec![151u8]);
    assert_eq!(p.detected_at, 301_001);
    assert!(!p.recovered);
}

#[test]
fn maintenance_forgets_old_recovered_partitions() {
    let mut dht = dht_with_nodes(0, 3, 30_000);
    dht.check_network_partition_at(&[0], 0);
    dht.check_network_partition_at(&[], 400_000);
    dht.check_network_partition_at(&[], 500_000);
    assert_eq!(dht.partition_detector.detected_partitions.len(), 2);
    dht.partition_detector.detected_partitions[0].recovered = true;
    dht.perform_maintenance_at(400_000 + 3_600_001);
    assert_eq!(dht.partition_detector.detected_partitions.len(), 1);
    assert_eq!(dht.partition_detector.detected_partitions[0].detected_at, 500_000);
}

#[test]
fn record_operations() {
    let mut dht = dht_with_nodes(0, 3, 30_000);
    let limit = dht.content_config.max_content_size;
    assert!(matches!(dht.store_record(vec![1], vec![0; limit + 1]), Err(NetworkError::ContentTooLarge)));
    match dht.store_record(vec![1], vec![0; 10]) {
        Err(NetworkError::Internal(m)) => assert_eq!(m, "Kademlia functionality not implemented for libp2p 0.53"),
        _ => panic!("expected an internal error"),
    }
    assert!(matches!(dht.get_record(vec![1]), Err(NetworkError::Internal(_))));
    assert!(matches!(dht.provide(vec![1]), Err(NetworkError::Internal(_))));
    assert!(matches!(dht.find_providers(vec![1]), Err(NetworkError::Internal(_))));
    assert!(matches!(dht.store_dark_address(&[1, 2], &[3], vec![0; limit + 1]), Err(NetworkError::ContentTooLarge)));
    assert!(matches!(dht.find_dark_address(&[1, 2], &[3]), Err(NetworkError::Internal(_))));
    assert_eq!(concat_bytes(&[1, 2], &[3]), vec![1, 2, 3]);
}

#[test]
fn xor_distance_is_symmetric_and_full_to_self() {
    let a = [0x12, 0x34, 0x56];
    let b = [0x12, 0x30, 0x00];
    assert_eq!(calculate_xor_distance(&a, &b), calculate_xor_distance(&b, &a));
    assert_eq!(calculate_xor_distance(&a, &b), 13);
    assert_eq!(calculate_xor_distance(&a, &a), 24);
}

#[test]
fn query_results_update_the_metrics_by_kind() {
    let mut dht = KademliaDHT::new(vec![0u8; 32], BootstrapConfig::default(), ContentRoutingConfig::default());
    dht.handle_query_result_at(QueryOutcome::RecordStored, 100, 1);
    assert_eq!(dht.metrics.successful_queries, 1);
    assert_eq!(dht.metrics.records_stored, 1);
    assert_eq!(dht.metrics.avg_query_time_ns, 50);
    dht.handle_query_result_at(QueryOutcome::RecordFound, 150, 2);
    assert_eq!(dht.metrics.successful_queries, 2);
    assert_eq!(dht.metrics.avg_query_time_ns, 100);
    dht.handle_query_result_at(QueryOutcome::RecordMissing, 7, 3);
    dht.handle_query_result_at(QueryOutcome::Failed, 7, 4);
    assert_eq!(dht.metrics.failed_queries, 2);
    assert_eq!(dht.metrics.records_stored, 1);
    dht.handle_query_result_at(QueryOutcome::BootstrapAnswered, 0, 5);
    assert_eq!(dht.bootstrap_state, BootstrapState::NotStarted);
    let peers = vec![vec![0u8; 32]];
    dht.handle_query_result_at(QueryOutcome::ClosestPeers { peers: peers.clone(), bucket_distances: vec![3] }, 0, 6);
    assert_eq!(dht.metrics.network_size_estimate, estimate_network_size(&[0u8; 32], &peers));
    assert_eq!(dht.partition_detector.last_successful_queries[156], Some(6));
}

use qudag_network::circuit_breaker::{
    CircuitBreaker, CircuitBreakerConfig, CircuitBreakerManager, CircuitState, SlidingWindow, NANOS_PER_SEC,
};
use qudag_network::types::PeerId;

const MS: u64 = 1_000_000;

fn failure_rate(window: &SlidingWindow) -> f64 {
    let total = window.total_requests();
    if total == 0 {
        0.0
    } else {
        window.failure_count() as f64 / total as f64
    }
}

#[test]
fn test_circuit_breaker_closed() {
    let config = CircuitBreakerConfig::default();
    let mut breaker = CircuitBreaker::new(config);
    assert_eq!(breaker.state(), CircuitState::Closed);
    assert!(breaker.allow_request());
    breaker.record_outcome(true);
    assert_eq!(breaker.state(), CircuitState::Closed);
}

#[test]
fn test_circuit_breaker_opens_on_failures() {
    let config = CircuitBreakerConfig { failure_threshold: 3, min_requests: 1, ..Default::default() };
    let mut breaker = CircuitBreaker::new_at(config, 0);
    for i in 0..3u64 {
        assert!(breaker.allow_request_at(i * MS));
        breaker.record_outcome_at(false, i * MS);
    }
    assert_eq!(breaker.state(), CircuitState::Open);
    assert!(!breaker.allow_request_at(3 * MS));
    let stats = breaker.stats();
    assert_eq!(stats.failed_requests, 3);
    assert_eq!(stats.rejected_requests, 1);
}

#[test]
fn test_circuit_breaker_half_open() {
    let config = CircuitBreakerConfig { failure_threshold: 2, timeout_ns: 100 * MS, ..Default::default() };
    let mut breaker = CircuitBreaker::new_at(config, 0);
    for _ in 0..2 {
        breaker.record_outcome_at(false, 0);
    }
    assert_eq!(breaker.state(), CircuitState::Open);
    // After 150 ms the timeout has passed.
    assert!(breaker.allow_request_at(150 * MS));
    assert_eq!(breaker.state(), CircuitState::HalfOpen);
}

#[test]
fn test_circuit_breaker_closes_after_success() {
    let config = CircuitBreakerConfig {
        failure_threshold: 2,
        success_threshold: 2,
        timeout_ns: 50 * MS,
        ..Default::default()
    };
    let mut breaker = CircuitBreaker::new_at(config, 0);
    for _ in 0..2 {
        breaker.record_outcome_at(false, 0);
    }
    // After 100 ms.
    let t = 100 * MS;
    assert!(breaker.allow_request_at(t));
    breaker.record_outcome_at(true, t);
    assert!(breaker.allow_request_at(t));
    breaker.record_outcome_at(true, t);
    assert_eq!(breaker.state(), CircuitState::Closed);
}

#[test]
fn test_circuit_breaker_manager() {
    let config = CircuitBreakerConfig::default();
    let mut manager = CircuitBreakerManager::new(config);
    let peer1 = PeerId::random();
    let peer2 = PeerId::random();
    assert!(manager.allow_request(peer1));
    assert!(manager.allow_request(peer2));
    manager.record_outcome(peer1, true);
    manager.record_outcome(peer2, false);
    assert_eq!(manager.get_state(peer1), CircuitState::Closed);
    let global_stats = manager.get_global_stats();
    assert_eq!(global_stats.total_breakers, 2);
}

#[test]
fn test_sliding_window() {
    let mut window = SlidingWindow::new(NANOS_PER_SEC);
    window.record(true, 0);
    window.record(false, 0);
    window.record(true, 0);
    window.record(false, 0);
    assert_eq!(window.total_requests(), 4);
    assert_eq!(failure_rate(&window), 0.5);
    assert!(window.failure_rate_reaches(500));
    assert!(!window.failure_rate_reaches(501));
    window.reset();
    assert_eq!(window.total_requests(), 0);
    assert_eq!(failure_rate(&window), 0.0);
}

#[test]
fn window_drops_old_outcomes() {
    let mut window = SlidingWindow::new(10);
    window.record(false, 0);
    window.record(true, 5);
    window.record(false, 12);
    // At 12 the window starts at 2: the outcome at 0 is gone.
    assert_eq!(window.total_requests(), 2);
    assert_eq!(window.failure_count(), 1);
    window.cleanup(100);
    assert_eq!(window.total_requests(), 0);
}

#[test]
fn failures_below_the_rate_keep_the_circuit_closed() {
    // With enough samples for statistics the rate decides.
    let config = CircuitBreakerConfig { failure_threshold: 1, min_requests: 4, ..Default::default() };
    let mut breaker = CircuitBreaker::new_at(config, 0);
    for _ in 0..4 {
        breaker.record_outcome_at(true, 0);
    }
    breaker.record_outcome_at(false, 1);
    assert_eq!(breaker.state(), CircuitState::Closed);
    assert_eq!(breaker.consecutive_failures, 1);
    breaker.record_outcome_at(false, 1);
    breaker.record_outcome_at(false, 1);
    breaker.record_outcome_at(false, 1);
    // 4 failures of 8: 50% reaches the threshold.
    assert_eq!(breaker.state(), CircuitState::Open);
    let stats = breaker.stats();
    assert_eq!(stats.state_changes, 1);
    assert_eq!(stats.last_state_change, Some(1));
}

#[test]
fn half_open_failure_reopens_and_limits_requests() {
    let config = CircuitBreakerConfig { failure_threshold: 1, timeout_ns: 10, ..Default::default() };
    let mut breaker = CircuitBreaker::new_at(config, 0);
    breaker.record_outcome_at(false, 0);
    assert_eq!(breaker.state(), CircuitState::Open);
    assert!(!breaker.allow_request_at(5));
    assert!(breaker.allow_request_at(10));
    assert_eq!(breaker.state(), CircuitState::HalfOpen);
    // Only one half-open request at a time.
    assert!(!breaker.allow_request_at(11));
    breaker.record_outcome_at(false, 12);
    assert_eq!(breaker.state(), CircuitState::Open);
    let stats = breaker.stats();
    assert_eq!(stats.rejected_requests, 2);
    assert_eq!(stats.state_changes, 3);
    assert_eq!(stats.time_in_open, 10);
    assert_eq!(stats.time_in_half_open, 2);
    breaker.reset_at(20);
    assert_eq!(breaker.state(), CircuitState::Closed);
    assert_eq!(breaker.stats().total_requests, 0);
}

#[test]
fn manager_keeps_one_breaker_per_peer() {
    let config = CircuitBreakerConfig { failure_threshold: 1, min_requests: 1, ..Default::default() };
    let mut manager = CircuitBreakerManager::new(config);
    let a = PeerId::from_bytes([1; 32]);
    let b = PeerId::from_bytes([2; 32]);
    manager.record_outcome_at(a, false, 0);
    manager.record_outcome_at(a, false, 0);
    assert_eq!(manager.get_state_at(a, 0), CircuitState::Open);
    assert_eq!(manager.get_state_at(b, 0), CircuitState::Closed);
    assert!(!manager.allow_request_at(a, 1));
    assert_eq!(manager.breakers.len(), 2);
    assert_eq!(manager.position(&b), Some(1));
    let stats = manager.get_global_stats();
    assert_eq!(stats.open_circuits, 1);
    assert_eq!(stats.total_requests, 2);
    assert_eq!(stats.total_rejected, 1);
    manager.update_global_stats();
    assert_eq!(manager.global_stats.total_breakers, 2);
    manager.reset_at(a, 2);
    assert_eq!(manager.get_state_at(a, 2), CircuitState::Closed);
    manager.remove(a);
    assert_eq!(manager.position(&a), None);
    assert_eq!(manager.breakers.len(), 1);
    manager.shutdown();
    assert!(manager.breakers.is_empty());
}

#[test]
fn cleanup_of_a_time_ordered_window_keeps_exactly_the_recent_outcomes() {
    let mut window = SlidingWindow::new(10);
    window.record(true, 1);
    window.record(false, 5);
    window.record(true, 12);
    window.record(false, 14);
    window.cleanup(20);
    assert_eq!(window.outcomes, vec![(12, true), (14, false)]);
    assert_eq!(window.total_requests(), 2);
    assert_eq!(window.failure_count(), 1);
}

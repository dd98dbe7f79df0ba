use mev_shield::gateway::{ApiGatewayConfig, ApiGatewayState, GatewayRequest};
use mev_shield::circuit::{CircuitBreaker, CircuitBreakerConfig, CircuitBreakerState, GatewayMetrics};

#[test]
fn test_circuit_breaker() {
    let config = CircuitBreakerConfig {
        failure_threshold: 3,
        time_window: 60_000,
        recovery_timeout: 30_000,
        success_threshold: 2,
    };
    let mut cb = CircuitBreaker::new(config);
    assert!(!cb.is_open());
    cb.record_failure();
    cb.record_failure();
    assert!(!cb.is_open());
    cb.record_failure();
    assert!(cb.is_open());
    cb.record_success();
    assert!(cb.is_open());
}

fn cfg() -> CircuitBreakerConfig {
    CircuitBreakerConfig { failure_threshold: 2, time_window: 1_000, recovery_timeout: 500, success_threshold: 2 }
}

#[test]
fn failures_outside_window_are_forgotten() {
    let mut cb = CircuitBreaker::new(cfg());
    cb.record_failure_at(0);
    cb.record_failure_at(1_000);
    assert_eq!(cb.failure_count, 1);
    assert!(!cb.is_open_at(1_000));
    cb.record_failure_at(1_500);
    assert_eq!(cb.failure_count, 2);
    assert!(cb.is_open_at(1_500));
}

#[test]
fn recovery_half_open_then_closed() {
    let mut cb = CircuitBreaker::new(cfg());
    cb.record_failure_at(10);
    cb.record_failure_at(20);
    assert!(cb.is_open_at(520));
    assert!(!cb.is_open_at(521));
    assert_eq!(cb.state, CircuitBreakerState::HalfOpen);
    cb.record_success();
    assert_eq!(cb.state, CircuitBreakerState::HalfOpen);
    cb.record_success();
    assert_eq!(cb.state, CircuitBreakerState::Closed);
    assert_eq!(cb.failure_count, 0);
    assert!(cb.last_failure_time.is_none());
}

#[test]
fn half_open_failure_reopens_and_closed_success_resets() {
    let mut cb = CircuitBreaker::new(cfg());
    cb.record_failure_at(0);
    cb.record_success();
    assert_eq!(cb.failure_count, 0);
    cb.record_failure_at(1);
    cb.record_failure_at(2);
    assert!(cb.is_open_at(2));
    assert!(!cb.is_open_at(503));
    cb.record_failure_at(504);
    assert_eq!(cb.state, CircuitBreakerState::Open);
}

#[test]
fn metrics_count_requests_errors_versions() {
    let mut m = GatewayMetrics::new();
    m.record_request("/api/v1/tx", "v1", true, 5);
    m.record_request("/api/v1/tx", "v2", false, 7);
    m.record_request("/health", "v1", true, 1);
    assert_eq!(m.request_count.get("/api/v1/tx"), 2);
    assert_eq!(m.request_count.get("/health"), 1);
    assert_eq!(m.error_count.get("/api/v1/tx"), 1);
    assert_eq!(m.error_count.get("/health"), 0);
    assert_eq!(m.version_usage.get("v1"), 2);
    assert_eq!(m.version_usage.get("v2"), 1);
    assert_eq!(m.latency_sum.get("/api/v1/tx"), 12);
}

#[test]
fn test_version_extraction() {
    let gateway = ApiGatewayState::new(ApiGatewayConfig::default());
    let request = GatewayRequest {
        method: "GET".to_string(),
        path: "/api/v2/transactions".to_string(),
        query: None,
        headers: Vec::new(),
    };
    assert_eq!(gateway.extract_api_version(&request).unwrap(), "v2");
    let request = GatewayRequest {
        method: "GET".to_string(),
        path: "/api/transactions".to_string(),
        query: None,
        headers: Vec::new(),
    };
    assert_eq!(gateway.extract_api_version(&request).unwrap(), "v1");
}

#[test]
fn success_on_open_circuit_changes_nothing() {
    let mut cb = CircuitBreaker::new(cfg());
    cb.record_failure_at(10);
    cb.record_failure_at(20);
    assert_eq!(cb.state, CircuitBreakerState::Open);
    cb.record_success();
    assert_eq!(cb.state, CircuitBreakerState::Open);
    assert_eq!(cb.failure_count, 2);
    assert_eq!(cb.last_failure_time, Some(20));
}

#[test]
fn success_restarts_the_failure_count() {
    let mut cb = CircuitBreaker::new(cfg());
    cb.record_failure_at(10);
    cb.record_success();
    cb.record_failure_at(20);
    assert_eq!(cb.state, CircuitBreakerState::Closed);
    assert_eq!(cb.failure_count, 1);
}

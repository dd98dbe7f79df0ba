use mev_shield::rate_limit::{
    client_ip_candidates, EndpointLimit, IpLimits, LimitWindow, RateLimitConfig, RateLimitError,
    RateLimiterState, UserLimits,
};

const NOW: i64 = 1_700_000_000_000;

#[test]
fn test_ip_rate_limiting() {
    let config = RateLimitConfig {
        ip_limits: IpLimits { requests_per_minute: 3, requests_per_hour: 10, concurrent_connections: 2 },
        ..Default::default()
    };
    let mut rate_limiter = RateLimiterState::new_at(config, NOW);
    let ip = "192.168.1.1";
    for _ in 0..3 {
        let result = rate_limiter.check_rate_limit_at(ip, None, "/test", false, NOW);
        assert!(result.is_ok());
        rate_limiter.finish_request(ip, None, "/test");
    }
    let result = rate_limiter.check_rate_limit_at(ip, None, "/test", false, NOW);
    assert!(result.is_err());
}

#[test]
fn test_user_rate_limiting() {
    let config = RateLimitConfig {
        user_limits: UserLimits {
            authenticated_requests_per_minute: 2,
            authenticated_requests_per_hour: 5,
            admin_requests_per_minute: 5,
            admin_requests_per_hour: 10,
        },
        ..Default::default()
    };
    let mut rate_limiter = RateLimiterState::new_at(config, NOW);
    let ip = "192.168.1.1";
    let user_id = "test_user";
    for _ in 0..2 {
        let result = rate_limiter.check_rate_limit_at(ip, Some(user_id), "/test", false, NOW);
        assert!(result.is_ok());
        rate_limiter.finish_request(ip, Some(user_id), "/test");
    }
    let result = rate_limiter.check_rate_limit_at(ip, Some(user_id), "/test", false, NOW);
    assert!(result.is_err());
}

#[test]
fn test_endpoint_rate_limiting() {
    let endpoint_limits = vec![(
        "/test".to_string(),
        EndpointLimit { requests_per_minute: 1, requests_per_hour: 5, concurrent_requests: 1, require_auth: false, admin_only: false },
    )];
    let config = RateLimitConfig { endpoint_limits, ..Default::default() };
    let mut rate_limiter = RateLimiterState::new_at(config, NOW);
    let ip = "192.168.1.1";
    let result = rate_limiter.check_rate_limit_at(ip, None, "/test", false, NOW);
    assert!(result.is_ok());
    rate_limiter.finish_request(ip, None, "/test");
    let result = rate_limiter.check_rate_limit_at(ip, None, "/test", false, NOW);
    assert!(result.is_err());
}

#[test]
fn test_cleanup() {
    let mut rate_limiter = RateLimiterState::new_at(RateLimitConfig::default(), NOW);
    let ip = "192.168.1.1";
    for _ in 0..5 {
        let _ = rate_limiter.check_rate_limit_at(ip, None, "/test", false, NOW);
        rate_limiter.finish_request(ip, None, "/test");
    }
    assert!(rate_limiter.ip_entries.contains_key(ip));
    rate_limiter.cleanup_old_entries_at(NOW);
    assert!(rate_limiter.ip_entries.contains_key(ip));
    rate_limiter.cleanup_old_entries_at(NOW + 3_600_000);
    assert!(!rate_limiter.ip_entries.contains_key(ip));
}

#[test]
fn ip_refusal_names_client_and_window() {
    let config = RateLimitConfig {
        ip_limits: IpLimits { requests_per_minute: 1, requests_per_hour: 10, concurrent_connections: 5 },
        allow_burst: false,
        ..Default::default()
    };
    let mut l = RateLimiterState::new_at(config, NOW);
    assert!(l.check_rate_limit_at("10.0.0.1", None, "/x", false, NOW).is_ok());
    match l.check_rate_limit_at("10.0.0.1", None, "/x", false, NOW) {
        Err(RateLimitError::IpLimitExceeded { ip, limit, window }) => {
            assert_eq!(ip, "10.0.0.1");
            assert_eq!(limit, 1);
            assert_eq!(window, LimitWindow::Minute);
        },
        _ => panic!("expected an address refusal"),
    }
    // a minute later the window has moved on
    assert!(l.check_rate_limit_at("10.0.0.1", None, "/x", false, NOW + 60_000).is_ok());
}

#[test]
fn burst_tokens_refill_with_time() {
    let config = RateLimitConfig {
        ip_limits: IpLimits { requests_per_minute: 60, requests_per_hour: 1000, concurrent_connections: 5 },
        allow_burst: true,
        burst_multiplier: 200,
        ..Default::default()
    };
    let mut l = RateLimiterState::new_at(config, NOW);
    for _ in 0..60 {
        assert!(l.check_rate_limit_at("1.1.1.1", None, "/t", false, NOW).is_ok());
        l.finish_request("1.1.1.1", None, "/t");
    }
    assert!(l.check_rate_limit_at("1.1.1.1", None, "/t", false, NOW).is_err());
    // one second at 60 per minute refills one request's tokens
    assert!(l.check_rate_limit_at("1.1.1.1", None, "/t", false, NOW + 1000).is_ok());
}

#[test]
fn test_burst_allowance() {
    // at 2 per minute with a multiplier of 2 the bucket holds a fifteenth of a request
    let config = RateLimitConfig {
        ip_limits: IpLimits { requests_per_minute: 2, requests_per_hour: 10, concurrent_connections: 5 },
        allow_burst: true,
        burst_multiplier: 200,
        ..Default::default()
    };
    let mut l = RateLimiterState::new_at(config, NOW);
    for _ in 0..2 {
        assert!(l.check_rate_limit_at("1.1.1.2", None, "/t", false, NOW).is_ok());
        l.finish_request("1.1.1.2", None, "/t");
    }
    // a second later the bucket has not refilled a whole request
    assert!(l.check_rate_limit_at("1.1.1.2", None, "/t", false, NOW + 1_000).is_err());
    assert!(l.check_rate_limit_at("1.1.1.2", None, "/t", false, NOW + 30_000).is_err());
}

#[test]
fn endpoint_access_rules() {
    let mut l = RateLimiterState::new_at(RateLimitConfig::default(), NOW);
    assert!(matches!(
        l.check_rate_limit_at("2.2.2.2", None, "/api/v1/transactions", false, NOW),
        Err(RateLimitError::AuthenticationRequired)
    ));
    assert!(matches!(
        l.check_rate_limit_at("2.2.2.2", Some("u"), "/api/v1/admin/users", false, NOW),
        Err(RateLimitError::AdminRequired)
    ));
    let ok = l.check_rate_limit_at("2.2.2.2", Some("u"), "/api/v1/admin/users", true, NOW).unwrap();
    assert!(ok.allowed);
    assert_eq!(ok.remaining, 29);
    assert_eq!(ok.reset_time, NOW + 60_000);
}

#[test]
fn concurrency_is_limited_until_finished() {
    let config = RateLimitConfig {
        ip_limits: IpLimits { requests_per_minute: 100, requests_per_hour: 1000, concurrent_connections: 1 },
        ..Default::default()
    };
    let mut l = RateLimiterState::new_at(config, NOW);
    assert!(l.check_rate_limit_at("3.3.3.3", None, "/c", false, NOW).is_ok());
    assert!(matches!(
        l.check_rate_limit_at("3.3.3.3", None, "/c", false, NOW),
        Err(RateLimitError::ConcurrentLimitExceeded { limit: 1 })
    ));
    l.finish_request("3.3.3.3", None, "/c");
    assert!(l.check_rate_limit_at("3.3.3.3", None, "/c", false, NOW).is_ok());
}

#[test]
fn client_address_candidates_in_order() {
    let h = vec![
        ("X-Forwarded-For".to_string(), " 9.9.9.9 , 8.8.8.8".to_string()),
        ("x-real-ip".to_string(), "7.7.7.7".to_string()),
    ];
    assert_eq!(client_ip_candidates(&h), vec!["9.9.9.9".to_string(), "7.7.7.7".to_string()]);
    assert!(client_ip_candidates(&Vec::new()).is_empty());
}

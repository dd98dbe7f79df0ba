use mev_shield::cors::CorsMiddleware;
use mev_shield::gateway::{ApiKeyValidationStrategy, ValidationStrictness};
use mev_shield::production::{
    create_auth_jwt_service, create_production_api_gateway_config, create_production_cors_config,
    create_production_rate_limit_config,
};
use mev_shield::rate_limit::find_endpoint_config;

#[test]
fn production_rate_limits_are_stricter() {
    let c = create_production_rate_limit_config();
    assert_eq!(c.ip_limits.requests_per_minute, 60);
    assert_eq!(c.ip_limits.requests_per_hour, 1000);
    assert_eq!(c.ip_limits.concurrent_connections, 10);
    assert_eq!(c.user_limits.authenticated_requests_per_minute, 120);
    assert_eq!(c.user_limits.admin_requests_per_hour, 5000);
    let login = find_endpoint_config(&c.endpoint_limits, "/auth/login").unwrap();
    assert_eq!(login.requests_per_minute, 5);
    assert_eq!(login.concurrent_requests, 2);
    let tx = find_endpoint_config(&c.endpoint_limits, "/api/v1/transactions").unwrap();
    assert_eq!(tx.requests_per_minute, 30);
    assert_eq!(tx.requests_per_hour, 500);
    assert!(tx.require_auth);
    // The other default rules stay, and no rule is doubled.
    assert_eq!(c.endpoint_limits.len(), 5);
    let register = find_endpoint_config(&c.endpoint_limits, "/auth/register").unwrap();
    assert_eq!(register.requests_per_minute, 3);
    let admin = find_endpoint_config(&c.endpoint_limits, "/api/v1/admin/users").unwrap();
    assert!(admin.admin_only);
}

#[test]
fn production_cors_allows_the_three_domains() {
    let c = create_production_cors_config();
    assert_eq!(
        c.allowed_origins,
        vec![
            "https://mev-shield.aurex.in".to_string(),
            "https://app.mev-shield.aurex.in".to_string(),
            "https://admin.mev-shield.aurex.in".to_string(),
        ]
    );
    let m = CorsMiddleware::new(c);
    assert!(m.is_origin_allowed("https://app.mev-shield.aurex.in"));
    // Subdomain patterns match on the host alone.
    assert!(m.is_origin_allowed("http://app.mev-shield.aurex.in"));
    assert!(!m.is_origin_allowed("http://other.example"));
    assert!(!m.is_origin_allowed("https://evil.com"));
    assert!(!m.is_origin_allowed("https://10.0.0.1"));
}

#[test]
fn production_gateway_settings() {
    let c = create_production_api_gateway_config();
    assert!(matches!(c.validation.strictness_level, ValidationStrictness::Strict));
    assert_eq!(c.validation.max_request_size, 5 * 1024 * 1024);
    match &c.security.api_key_config.validation_strategy {
        ApiKeyValidationStrategy::Static(keys) => {
            assert_eq!(keys.len(), 1);
            assert_eq!(keys[0].0, "mev_shield_prod_key_001");
            assert_eq!(keys[0].1.key_id, "prod_001");
            assert_eq!(keys[0].1.permissions, vec!["read".to_string(), "write".to_string()]);
            assert_eq!(keys[0].1.rate_limit, Some(1000));
            assert!(keys[0].1.expires_at.is_none());
        }
        _ => panic!("static keys expected"),
    }
    assert_eq!(c.security.content_security.max_json_depth, 5);
    assert_eq!(c.monitoring.alert_thresholds.latency_p99, 500);
}

#[test]
fn production_token_service() {
    let s = create_auth_jwt_service();
    assert_eq!(s.config.issuer, "mev-shield-api");
    assert_eq!(s.config.audience, "mev-shield-users");
    assert_eq!(s.config.access_token_expiry, 3600);
    assert_eq!(s.config.refresh_token_expiry, 7 * 24 * 3600);
}

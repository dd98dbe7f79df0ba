use mev_shield::cors::{validate_cors_request, CorsConfig, CorsEnvironment, CorsMiddleware, CorsStep};

#[test]
fn test_origin_validation() {
    let config = CorsConfig::production(vec!["example.com".to_string(), "app.example.com".to_string()]);
    let cors = CorsMiddleware::new(config);
    assert!(cors.is_origin_allowed("https://example.com"));
    assert!(cors.is_origin_allowed("https://app.example.com"));
    assert!(!cors.is_origin_allowed("http://example.com"));
    assert!(!cors.is_origin_allowed("https://evil.com"));
    assert!(!cors.is_origin_allowed("https://127.0.0.1"));
    assert!(!cors.is_origin_allowed("https://unlisted.org"));
}

#[test]
fn test_wildcard_matching() {
    let mut config = CorsConfig::default();
    config.allowed_origin_patterns = vec!["https://*.example.com".to_string()];
    let cors = CorsMiddleware::new(config);
    assert!(cors.matches_pattern("https://app.example.com", "https://*.example.com"));
    assert!(cors.matches_pattern("https://api.example.com", "https://*.example.com"));
    assert!(!cors.matches_pattern("https://app.evil.com", "https://*.example.com"));
    assert!(!cors.matches_pattern("https://example.com.evil.com", "https://*.example.com"));
    assert!(!cors.matches_pattern("https://evilexample.com", "https://*.example.com"));
    assert!(cors.matches_pattern("https://example.com", "https://*.example.com"));
}

#[test]
fn test_localhost_validation() {
    let cors = CorsMiddleware::new(CorsConfig::development());
    assert!(cors.is_origin_allowed("http://localhost:3000"));
    assert!(cors.is_origin_allowed("http://127.0.0.1:3001"));
    assert!(!cors.is_origin_allowed("http://localhost:9999"));
}

#[test]
fn test_cors_validation() {
    let config = CorsConfig::production(vec!["example.com".to_string()]);
    let result = validate_cors_request(&config, Some("https://example.com"), "GET", Vec::new());
    assert!(result.allowed);
    let result = validate_cors_request(&config, Some("https://evil.com"), "GET", Vec::new());
    assert!(!result.allowed);
    assert!(result.reason.is_some());
    let result = validate_cors_request(&config, Some("https://example.com"), "PATCH", Vec::new());
    assert!(!result.allowed);
}

#[test]
fn test_simple_headers() {
    let cors = CorsMiddleware::new(CorsConfig::default());
    assert!(cors.is_simple_header("accept"));
    assert!(cors.is_simple_header("content-type"));
    assert!(cors.is_simple_header("accept-language"));
    assert!(!cors.is_simple_header("authorization"));
    assert!(!cors.is_simple_header("x-custom-header"));
}

fn headers(pairs: &[(&str, &str)]) -> Vec<(String, String)> {
    pairs.iter().map(|(k, v)| (k.to_string(), v.to_string())).collect()
}

#[test]
fn cors_refusal_reasons_are_exact() {
    let config = CorsConfig::production(vec!["example.com".to_string()]);
    let r = validate_cors_request(&config, Some("https://evil.com"), "GET", vec!["origin".to_string()]);
    assert_eq!(r.reason.as_deref(), Some("Origin not allowed: https://evil.com"));
    assert_eq!(r.headers, vec!["origin".to_string()]);
    let r = validate_cors_request(&config, None, "PATCH", Vec::new());
    assert_eq!(r.reason.as_deref(), Some("Method not allowed: PATCH"));
    assert_eq!(r.origin, None);
}

#[test]
fn production_prefixes_https_once() {
    let config = CorsConfig::production(vec![
        "https://a.example.org".to_string(),
        "b.example.org".to_string(),
        "b.example.org".to_string(),
    ]);
    assert_eq!(
        config.allowed_origins,
        vec!["https://a.example.org".to_string(), "https://b.example.org".to_string()]
    );
    assert!(matches!(config.environment, CorsEnvironment::Production { strict_origin_check: true, require_https: true }));
}

#[test]
fn request_steps() {
    let cors = CorsMiddleware::new(CorsConfig::production(vec!["example.com".to_string()]));
    assert_eq!(cors.request_step("GET", Some("https://evil.com")), CorsStep::Reject(403));
    assert_eq!(cors.request_step("POST", None), CorsStep::Reject(400));
    assert_eq!(cors.request_step("GET", None), CorsStep::Forward);
    assert_eq!(cors.request_step("OPTIONS", Some("https://example.com")), CorsStep::Preflight);
    let open = CorsMiddleware::new(CorsConfig::testing());
    assert_eq!(open.request_step("POST", None), CorsStep::Forward);
}

#[test]
fn preflight_verdicts() {
    let cors = CorsMiddleware::new(CorsConfig::default());
    assert_eq!(cors.preflight_verdict(&headers(&[])), Err(400));
    assert_eq!(cors.preflight_verdict(&headers(&[("Access-Control-Request-Method", "PATCH")])), Err(405));
    assert_eq!(cors.preflight_verdict(&headers(&[("access-control-request-method", "GE T")])), Err(400));
    assert_eq!(cors.preflight_verdict(&headers(&[("access-control-request-method", "GET")])), Ok(()));
    assert_eq!(
        cors.preflight_verdict(&headers(&[
            ("access-control-request-method", "POST"),
            ("access-control-request-headers", " Accept , content-type"),
        ])),
        Ok(())
    );
    assert_eq!(
        cors.preflight_verdict(&headers(&[
            ("access-control-request-method", "POST"),
            ("access-control-request-headers", "Authorization"),
        ])),
        Err(403)
    );
}

#[test]
fn response_and_preflight_headers() {
    let cors = CorsMiddleware::new(CorsConfig::production(vec!["example.com".to_string()]));
    let h = cors.response_headers(Some("https://example.com"), Some("Accept-Encoding"));
    assert_eq!(h[0], ("Access-Control-Allow-Origin".to_string(), "https://example.com".to_string()));
    assert_eq!(h[1], ("Access-Control-Allow-Credentials".to_string(), "true".to_string()));
    assert_eq!(
        h[2],
        (
            "Access-Control-Expose-Headers".to_string(),
            "X-Request-ID, X-RateLimit-Limit, X-RateLimit-Remaining, X-RateLimit-Reset".to_string()
        )
    );
    assert_eq!(h[3], ("Vary".to_string(), "Accept-Encoding, Origin".to_string()));
    assert_eq!(h.len(), 4);
    let h = cors.response_headers(Some("https://evil.com"), Some("Origin"));
    assert_eq!(h.len(), 2);
    let p = cors.preflight_headers(None);
    assert_eq!(p[0], ("Access-Control-Allow-Methods".to_string(), "GET, POST, PUT, DELETE, OPTIONS".to_string()));
    assert_eq!(p[3], ("Access-Control-Max-Age".to_string(), "86400".to_string()));
    assert_eq!(p.len(), 5);
}

#[test]
fn extract_origin_is_case_insensitive() {
    let cors = CorsMiddleware::new(CorsConfig::default());
    assert_eq!(cors.extract_origin(&headers(&[("Origin", "https://x.io")])), Some("https://x.io".to_string()));
    assert_eq!(cors.extract_origin(&headers(&[("Host", "x")])), None);
}

#[test]
fn production_origin_checks() {
    let cors = CorsMiddleware::new(CorsConfig::default());
    assert!(cors.validate_production_origin("https://shop.good.io"));
    assert!(!cors.validate_production_origin("http://shop.good.io"));
    assert!(!cors.validate_production_origin("https://1.2.3.4"));
    assert!(!cors.validate_production_origin("https://PHISHING.good.io"));
    assert!(cors.validate_production_origin("not a url"));
    assert!(cors.is_localhost_origin("http://localhost", &[80]));
    assert!(!cors.is_localhost_origin("ftp://localhost", &[21]));
}

#[test]
fn default_lists_are_exact() {
    let c = CorsConfig::default();
    assert_eq!(
        c.allowed_origins,
        vec!["https://mev-shield.aurex.in", "https://app.mev-shield.aurex.in", "https://admin.mev-shield.aurex.in"]
    );
    assert_eq!(c.allowed_origin_patterns, vec!["https://*.mev-shield.aurex.in"]);
    assert_eq!(c.allowed_methods, vec!["GET", "POST", "PUT", "DELETE", "OPTIONS"]);
    assert_eq!(c.allowed_headers.len(), 7);
    assert_eq!(c.exposed_headers, vec!["X-Request-ID", "X-RateLimit-Limit", "X-RateLimit-Remaining", "X-RateLimit-Reset"]);
    let d = CorsConfig::development();
    assert_eq!(d.allowed_origins.len(), 11);
    assert_eq!(d.allowed_origins[3], "http://localhost:3000");
    assert_eq!(d.allowed_methods, c.allowed_methods);
    let p = CorsConfig::production(vec!["example.com".to_string()]);
    assert_eq!(p.allowed_origin_patterns, c.allowed_origin_patterns);
    assert!(!validate_cors_request(&p, Some("https://example.com"), "PATCH", Vec::new()).allowed);
    assert!(validate_cors_request(&p, Some("https://example.com"), "GET", Vec::new()).allowed);
}

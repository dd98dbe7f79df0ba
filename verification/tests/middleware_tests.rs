use mev_shield::middleware::{
    check_request_size, error_message, health_check_headers, is_health_check, screen_for_attacks,
    screen_user_agent, security_header_list, validate_request,
};

fn h(pairs: &[(&str, &str)]) -> Vec<(String, String)> {
    pairs.iter().map(|(k, v)| (k.to_string(), v.to_string())).collect()
}

#[test]
fn request_validation_rules() {
    assert_eq!(validate_request("POST", &h(&[])), Err(400));
    assert_eq!(validate_request("POST", &h(&[("Content-Type", "application/xml")])), Err(415));
    assert_eq!(validate_request("PUT", &h(&[("content-type", "application/json; charset=utf-8")])), Ok(()));
    assert_eq!(validate_request("GET", &h(&[("content-length", "10485761")])), Err(413));
    assert_eq!(validate_request("GET", &h(&[("content-length", "10485760")])), Ok(()));
    assert_eq!(check_request_size(&h(&[("content-length", "+52428801")])), Err(413));
    assert_eq!(check_request_size(&h(&[("content-length", "abc")])), Ok(()));
}

#[test]
fn attack_patterns_are_refused() {
    assert_eq!(screen_for_attacks("/api/../etc", "", &h(&[])), Err(400));
    assert_eq!(screen_for_attacks("/search", "q=UNION SELECT 1", &h(&[])), Err(400));
    assert_eq!(screen_for_attacks("/search", "q=hello", &h(&[("X-Note", "<SCRIPT>")])), Err(400));
    assert_eq!(screen_for_attacks("/search", "q=hello", &h(&[("X-Note", "fine")])), Ok(()));
}

#[test]
fn user_agent_rules() {
    assert_eq!(screen_user_agent(&h(&[])), Err(400));
    assert_eq!(screen_user_agent(&h(&[("User-Agent", "Mozilla/5.0 (X11; Linux)")])), Ok(()));
    assert_eq!(screen_user_agent(&h(&[("user-agent", "Googlebot/2.1 (+http)")])), Err(403));
    assert_eq!(screen_user_agent(&h(&[("user-agent", "short")])), Err(400));
}

#[test]
fn fixed_headers_and_messages() {
    assert!(is_health_check("/health") && is_health_check("/api/v1/health") && !is_health_check("/api/v2/health"));
    assert_eq!(health_check_headers()[1], ("Cache-Control".to_string(), "no-cache".to_string()));
    let s = security_header_list();
    assert_eq!(s.len(), 6);
    assert_eq!(s[0], ("X-Frame-Options".to_string(), "DENY".to_string()));
    assert_eq!(error_message(429), "Too Many Requests");
    assert_eq!(error_message(418), "Unknown Error");
}

use mev_shield::access::{User, UserRole};
use mev_shield::jwt::{admin_verdict, extract_token, role_verdict, JwtConfig, JwtError, JwtService, RefreshClaims, TokenBlacklist};
use mev_shield::token::{ClaimValue, TokenFault};

fn service() -> JwtService {
    JwtService::new(JwtConfig::with_secret("secret".to_string()))
}

#[test]
fn test_token_header_extraction() {
    let jwt_service = service();
    let token = jwt_service.extract_token_from_header("Bearer abc123def456").expect("Token extraction failed");
    assert_eq!(token, "abc123def456");
    assert!(jwt_service.extract_token_from_header("Invalid header").is_err());
    assert!(jwt_service.extract_token_from_header("Bearer ").is_err());
}

#[test]
fn test_token_blacklist() {
    let mut blacklist = TokenBlacklist::new();
    let token = "test_token";
    let expires_at = chrono::Utc::now().timestamp_millis() + 3_600_000;
    assert!(!blacklist.is_blacklisted(token));
    blacklist.add_token(token, expires_at);
    assert!(blacklist.is_blacklisted(token));
}

#[test]
fn blacklist_drops_expired_tokens() {
    let mut b = TokenBlacklist::new();
    b.add_token_at("a", 100, 50);
    b.add_token_at("b", 200, 60);
    assert!(b.is_blacklisted("a") && b.is_blacklisted("b"));
    b.add_token_at("c", 300, 150);
    assert!(!b.is_blacklisted("a"));
    assert!(b.is_blacklisted("b") && b.is_blacklisted("c"));
    b.add_token_at("d", 10, 150);
    assert!(!b.is_blacklisted("d"));
}

#[test]
fn bearer_prefixes_are_all_stripped() {
    let s = service();
    assert_eq!(s.extract_token_from_header("Bearer Bearer  tok "), Ok("tok".to_string()));
    assert_eq!(s.extract_token_from_header("bearer tok"), Err(JwtError::InvalidToken));
}

#[test]
fn claims_and_pairs() {
    let s = service();
    let user = User::new_at("a@b.io".to_string(), "h".to_string(), UserRole::Validator, 0x550e8400e29b41d4a716446655440000, 0);
    let c = s.access_claims_at(&user, 1000);
    assert_eq!(c.sub, "550e8400-e29b-41d4-a716-446655440000");
    assert_eq!(c.exp, 4600);
    assert_eq!(c.iss, "mev-shield");
    let r = s.refresh_claims_at(&user, 1000);
    assert_eq!(r.exp, 1000 + 2_592_000);
    assert_eq!(r.token_type, "refresh");
    assert!(s.check_refresh_owner(&r, &user).is_ok());
    let p = s.token_pair("a".to_string(), "r".to_string());
    assert_eq!(p.token_type, "Bearer");
    assert_eq!(p.expires_in, 3600);
}

#[test]
fn refresh_claims_must_be_refresh_tokens() {
    let s = service();
    let claims = RefreshClaims {
        sub: "x".to_string(),
        email: "e".to_string(),
        exp: 0,
        iat: 0,
        iss: "i".to_string(),
        aud: "a".to_string(),
        token_type: "access".to_string(),
    };
    assert_eq!(s.check_refresh_claims(claims).err(), Some(JwtError::InvalidToken));
}

#[test]
fn fault_errors_map() {
    assert_eq!(TokenFault::NotYetValid.access_error(), JwtError::TokenNotYetValid);
    assert_eq!(TokenFault::NotYetValid.refresh_error(), JwtError::TokenValidation("ImmatureSignature".to_string()));
    assert_eq!(TokenFault::Expired.refresh_error(), JwtError::TokenExpired);
    assert_eq!(
        TokenFault::MissingExpiry.access_error(),
        JwtError::TokenValidation("Missing required claim: exp".to_string())
    );
}

#[test]
fn access_verdicts() {
    assert_eq!(admin_verdict(None), Err(401));
    assert_eq!(admin_verdict(Some(UserRole::User)), Err(403));
    assert_eq!(admin_verdict(Some(UserRole::Admin)), Ok(()));
    assert_eq!(role_verdict(Some(UserRole::ReadOnly), UserRole::User), Err(403));
    assert_eq!(role_verdict(Some(UserRole::User), UserRole::ReadOnly), Ok(()));
    let s = service();
    let h = vec![("Authorization".to_string(), "Bearer t1".to_string())];
    assert_eq!(extract_token(&s, &h, Some("c".to_string())), Some("t1".to_string()));
    let h = vec![("Authorization".to_string(), "Basic x".to_string())];
    assert_eq!(extract_token(&s, &h, Some("c".to_string())), Some("c".to_string()));
    assert_eq!(extract_token(&s, &Vec::new(), None), None);
}

#[test]
fn test_token_extraction() {
    let s = service();
    assert!(extract_token(&s, &Vec::new(), None).is_none());
    let headers = vec![("authorization".to_string(), "Bearer test_token".to_string())];
    assert_eq!(extract_token(&s, &headers, None), Some("test_token".to_string()));
    assert_eq!(extract_token(&s, &Vec::new(), Some("from_cookie".to_string())), Some("from_cookie".to_string()));
}

#[test]
fn test_blacklist_functionality() {
    let blacklist = TokenBlacklist::new();
    assert!(!blacklist.is_blacklisted("test_token"));
}

const DEFAULT_SECRET: &str = "your-super-secret-jwt-key-change-this-in-production";
const NOW: i64 = 1_700_000_000;

fn default_service() -> JwtService {
    JwtService::new(JwtConfig::with_secret(DEFAULT_SECRET.to_string()))
}

fn create_test_user() -> User {
    User::new_at("test@example.com".to_string(), "hashed_password".to_string(), UserRole::User, 0x1234_5678_9abc_4def_8123_456789abcdef, 0)
}

#[test]
fn test_token_generation_and_validation() {
    let jwt_service = default_service();
    let user = create_test_user();
    let tokens = jwt_service.generate_tokens_at(&user, NOW).expect("Token generation failed");
    assert!(!tokens.access_token.is_empty());
    assert!(!tokens.refresh_token.is_empty());
    assert_eq!(tokens.token_type, "Bearer");
    let claims = jwt_service.validate_access_token_at(&tokens.access_token, NOW).expect("Token validation failed");
    assert_eq!(claims.sub, "12345678-9abc-4def-8123-456789abcdef");
    assert_eq!(claims.email, user.email);
    assert_eq!(claims.role, user.role);
}

#[test]
fn test_refresh_token_validation() {
    let jwt_service = default_service();
    let user = create_test_user();
    let tokens = jwt_service.generate_tokens_at(&user, NOW).expect("Token generation failed");
    let refresh_claims =
        jwt_service.validate_refresh_token_at(&tokens.refresh_token, NOW).expect("Refresh token validation failed");
    assert_eq!(refresh_claims.sub, "12345678-9abc-4def-8123-456789abcdef");
    assert_eq!(refresh_claims.token_type, "refresh");
}

#[test]
fn test_access_token_refresh() {
    let jwt_service = default_service();
    let user = create_test_user();
    let tokens = jwt_service.generate_tokens_at(&user, NOW).expect("Token generation failed");
    let new_access_token =
        jwt_service.refresh_access_token_at(&tokens.refresh_token, &user, NOW + 1).expect("Token refresh failed");
    assert!(!new_access_token.is_empty());
    assert_ne!(new_access_token, tokens.access_token);
    let claims = jwt_service.validate_access_token_at(&new_access_token, NOW + 1).expect("New token validation failed");
    assert_eq!(claims.sub, "12345678-9abc-4def-8123-456789abcdef");
}

#[test]
fn expired_and_early_tokens_are_refused_with_leeway() {
    let s = default_service();
    let user = create_test_user();
    let tokens = s.generate_tokens_at(&user, NOW).unwrap();
    assert!(s.validate_access_token_at(&tokens.access_token, NOW + 3600 + 60).is_ok());
    assert_eq!(s.validate_access_token_at(&tokens.access_token, NOW + 3600 + 61).err(), Some(JwtError::TokenExpired));
    assert!(s.validate_access_token_at(&tokens.access_token, NOW - 60).is_ok());
    assert_eq!(s.validate_access_token_at(&tokens.access_token, NOW - 61).err(), Some(JwtError::TokenNotYetValid));
}

#[test]
fn tokens_need_the_right_secret_type_issuer_and_audience() {
    let s = default_service();
    let user = create_test_user();
    let tokens = s.generate_tokens_at(&user, NOW).unwrap();
    let other = JwtService::new(JwtConfig::with_secret("another".to_string()));
    assert_eq!(
        other.validate_access_token_at(&tokens.access_token, NOW).err(),
        Some(JwtError::TokenValidation("InvalidSignature".to_string()))
    );
    assert!(matches!(s.validate_access_token_at(&tokens.refresh_token, NOW), Err(JwtError::TokenValidation(_))));
    assert!(matches!(s.validate_refresh_token_at(&tokens.access_token, NOW), Err(JwtError::TokenValidation(_))));
    let mut cfg = JwtConfig::with_secret(DEFAULT_SECRET.to_string());
    cfg.issuer = "someone-else".to_string();
    assert_eq!(JwtService::new(cfg).validate_access_token_at(&tokens.access_token, NOW).err(), Some(JwtError::InvalidIssuer));
    let mut cfg = JwtConfig::with_secret(DEFAULT_SECRET.to_string());
    cfg.audience = "elsewhere".to_string();
    assert_eq!(
        JwtService::new(cfg).validate_access_token_at(&tokens.access_token, NOW).err(),
        Some(JwtError::InvalidAudience)
    );
    let stranger = User::new_at("x@y.z".to_string(), "h".to_string(), UserRole::User, 7, 0);
    assert_eq!(s.refresh_access_token_at(&tokens.refresh_token, &stranger, NOW).err(), Some(JwtError::InvalidToken));
}

#[test]
fn unverified_reading_refuses_tokens_with_an_audience() {
    let s = default_service();
    let tokens = s.generate_tokens_at(&create_test_user(), NOW).unwrap();
    assert_eq!(s.decode_token_unsafe(&tokens.access_token).err(), Some(JwtError::TokenValidation("InvalidAudience".to_string())));
    assert!(s.is_token_expired_at(&tokens.access_token, NOW));
    assert!(s.get_token_expiration(&tokens.access_token).is_err());
    assert!(matches!(s.decode_token_unsafe("not a token"), Err(JwtError::TokenValidation(_))));
}

#[test]
fn decoded_claims_are_checked_in_order() {
    let s = default_service();
    let text = |v: &str| ClaimValue::Text(v.to_string());
    let num = |v: &str| ClaimValue::Number(v.to_string());
    let claims = vec![
        ("aud".to_string(), text("mev-shield-api")),
        ("email".to_string(), text("a@b.io")),
        ("exp".to_string(), num("2000")),
        ("iat".to_string(), num("1000")),
        ("iss".to_string(), text("mev-shield")),
        ("nbf".to_string(), num("1000")),
        ("role".to_string(), text("Admin")),
        ("sub".to_string(), text("s")),
    ];
    let c = s.read_access_claims(Ok(claims.clone()), 1500).unwrap();
    assert_eq!(c.role, UserRole::Admin);
    assert_eq!(c.exp, 2000);
    assert_eq!(s.read_access_claims(Ok(claims.clone()), 2061).err(), Some(JwtError::TokenExpired));
    let mut bad = claims.clone();
    bad[6].1 = text("Root");
    assert_eq!(
        s.read_access_claims(Ok(bad), 1500).err(),
        Some(JwtError::TokenValidation("JSON error: the claims do not have the expected names and types".to_string()))
    );
    let mut neg = claims.clone();
    neg[2].1 = num("-5");
    assert_eq!(
        s.read_access_claims(Ok(neg), 1500).err(),
        Some(JwtError::TokenValidation("Missing required claim: exp".to_string()))
    );
    assert_eq!(s.read_access_claims(Err("Base64 error".to_string()), 1500).err(), Some(JwtError::TokenValidation("Base64 error".to_string())));
}

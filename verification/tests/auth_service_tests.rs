use mev_shield::jwt::{JwtConfig, JwtService};
use mev_shield::access::{User, UserRole};
use mev_shield::auth_service::{AuthOutcome, AuthServiceState};
use mev_shield::password::PasswordService;

const SALT: &str = "c29tZXNhbHRzb21lc2FsdA";

fn service_with_admin() -> AuthServiceState {
    let ps = PasswordService::new();
    let hash = ps.hash_password_with_salt("Gr8!Shield#Key42", SALT).unwrap();
    let admin = User::new_at("admin@mevshield.com".to_string(), hash, UserRole::Admin, 1, 0);
    AuthServiceState::with_users(ps, vec![admin])
}

#[test]
fn login_success_records_the_login() {
    let mut s = service_with_admin();
    match s.login_at("admin@mevshield.com", "Gr8!Shield#Key42", 1_000) {
        AuthOutcome::Success(Some(u)) => {
            assert_eq!(u.last_login, Some(1_000));
            assert_eq!(u.role, UserRole::Admin);
        },
        other => panic!("unexpected {:?}", other),
    }
    assert_eq!(s.users[0].last_login, Some(1_000));
}

#[test]
fn login_invalid_credentials_counts_failures_and_locks() {
    let mut s = service_with_admin();
    for i in 0..5 {
        match s.login_at("admin@mevshield.com", "WrongPassword123!", 10 + i) {
            AuthOutcome::Refused(m) => assert_eq!(m, "Invalid credentials"),
            other => panic!("unexpected {:?}", other),
        }
    }
    assert_eq!(s.users[0].failed_login_attempts, 5);
    match s.login_at("admin@mevshield.com", "Gr8!Shield#Key42", 20) {
        AuthOutcome::Refused(m) => {
            assert_eq!(m, "Account is temporarily locked due to multiple failed login attempts")
        },
        other => panic!("unexpected {:?}", other),
    }
    // fifteen minutes after the fifth failure the lock has passed
    assert!(matches!(s.login_at("admin@mevshield.com", "Gr8!Shield#Key42", 14 + 900_000), AuthOutcome::Success(_)));
}

#[test]
fn login_nonexistent_user_is_unauthorized() {
    let mut s = service_with_admin();
    assert!(matches!(s.login_at("nobody@x.io", "Gr8!Shield#Key42", 0), AuthOutcome::Unauthorized));
}

#[test]
fn create_user_rules() {
    let mut s = service_with_admin();
    assert_eq!(
        s.create_user_at("admin@mevshield.com".to_string(), "Another!Pass123", UserRole::User, 2, 5),
        Err("User already exists".to_string())
    );
    assert_eq!(
        s.create_user_at("new@x.io".to_string(), "short", UserRole::User, 2, 5),
        Err("Password is too short (minimum 12 characters)".to_string())
    );
    assert_eq!(s.create_user_at("new@x.io".to_string(), "Another!Pass123", UserRole::User, 2, 5), Ok(()));
    assert_eq!(s.users.len(), 2);
    assert!(matches!(s.login_at("new@x.io", "Another!Pass123", 6), AuthOutcome::Success(_)));
}

#[test]
fn password_reset_flow() {
    let mut s = service_with_admin();
    s.request_password_reset_at("admin@mevshield.com", "tok".to_string(), 0);
    s.request_password_reset_at("nobody@x.io", "tok2".to_string(), 0);
    assert_eq!(s.password_reset_tokens.len(), 1);
    match s.confirm_password_reset_at("tok", "Fresh!Secret42x", 3_600_001) {
        AuthOutcome::Refused(m) => assert_eq!(m, "Reset token has expired"),
        other => panic!("unexpected {:?}", other),
    }
    assert!(s.password_reset_tokens.is_empty());
    s.request_password_reset_at("admin@mevshield.com", "tok".to_string(), 0);
    assert!(matches!(s.confirm_password_reset_at("tok", "Fresh!Secret42x", 10), AuthOutcome::Success(None)));
    assert!(matches!(s.confirm_password_reset_at("tok", "Fresh!Secret42x", 10), AuthOutcome::Refused(_)));
    assert!(matches!(s.login_at("admin@mevshield.com", "Fresh!Secret42x", 20), AuthOutcome::Success(_)));
}

#[test]
fn change_password_and_refresh() {
    let mut s = service_with_admin();
    match s.change_password("admin@mevshield.com", "wrong", "Fresh!Secret42x") {
        AuthOutcome::Refused(m) => assert_eq!(m, "Current password is incorrect"),
        other => panic!("unexpected {:?}", other),
    }
    assert!(matches!(
        s.change_password("admin@mevshield.com", "Gr8!Shield#Key42", "Fresh!Secret42x"),
        AuthOutcome::Success(None)
    ));
    assert!(matches!(s.change_password("x@y.z", "a", "b"), AuthOutcome::Unauthorized));
    assert_eq!(s.refresh_account("admin@mevshield.com").unwrap().id, 1);
    assert_eq!(s.refresh_account("x@y.z").err(), Some(401));
}

#[test]
fn reset_with_weak_password_is_refused_and_consumes_the_token() {
    let mut s = service_with_admin();
    s.request_password_reset_at("admin@mevshield.com", "tok".to_string(), 0);
    match s.confirm_password_reset_at("tok", "weakpass", 10) {
        AuthOutcome::Refused(m) => assert_eq!(m, "Password is too short (minimum 12 characters)"),
        other => panic!("unexpected {:?}", other),
    }
    assert!(s.password_reset_tokens.is_empty());
    assert!(matches!(s.login_at("admin@mevshield.com", "Gr8!Shield#Key42", 20), AuthOutcome::Success(_)));
}

#[test]
fn reset_unlocks_a_locked_account() {
    let mut s = service_with_admin();
    for i in 0..5 {
        let _ = s.login_at("admin@mevshield.com", "WrongPassword123!", 10 + i);
    }
    assert!(s.users[0].locked_until.is_some());
    s.request_password_reset_at("admin@mevshield.com", "tok".to_string(), 100);
    assert!(matches!(s.confirm_password_reset_at("tok", "Fresh!Secret42x", 200), AuthOutcome::Success(None)));
    assert_eq!(s.users[0].locked_until, None);
    assert_eq!(s.users[0].failed_login_attempts, 0);
    assert!(matches!(s.login_at("admin@mevshield.com", "Fresh!Secret42x", 300), AuthOutcome::Success(_)));
}

#[test]
fn change_password_to_weak_is_refused_with_the_rule() {
    let mut s = service_with_admin();
    match s.change_password("admin@mevshield.com", "Gr8!Shield#Key42", "alllowercase!123") {
        AuthOutcome::Refused(m) => assert_eq!(m, "Password must contain at least one uppercase letter"),
        other => panic!("unexpected {:?}", other),
    }
    assert!(matches!(s.login_at("admin@mevshield.com", "Gr8!Shield#Key42", 20), AuthOutcome::Success(_)));
}

#[test]
fn reset_request_answer_does_not_reveal_the_account() {
    let mut s = service_with_admin();
    let a = s.request_password_reset_at("admin@mevshield.com", "tok".to_string(), 0);
    let b = s.request_password_reset_at("nobody@x.io", "tok2".to_string(), 0);
    assert_eq!(a, b);
    assert_eq!(a, "If an account with that email exists, a password reset link has been sent.");
    assert_eq!(s.password_reset_tokens.len(), 1);
}

#[test]
fn update_user_keeps_one_account_per_email() {
    let mut s = service_with_admin();
    let mut u = s.find_user_by_email("admin@mevshield.com").unwrap();
    u.is_active = false;
    s.update_user(u);
    assert_eq!(s.users.len(), 1);
    assert!(!s.users[0].is_active);
}

#[test]
fn login_issues_tokens_the_validator_accepts() {
    let mut s = service_with_admin();
    let jwt = JwtService::new(JwtConfig::with_secret("secret".to_string()));
    let (outcome, tokens) = s.login_with_tokens_at(&jwt, "admin@mevshield.com", "Gr8!Shield#Key42", 1_700_000_000_123);
    assert!(matches!(outcome, AuthOutcome::Success(Some(_))));
    let tokens = tokens.expect("tokens issued");
    let claims = jwt.validate_access_token_at(&tokens.access_token, 1_700_000_000).unwrap();
    assert_eq!(claims.sub, "00000000-0000-0000-0000-000000000001");
    assert_eq!(claims.email, "admin@mevshield.com");
    assert_eq!(claims.role, UserRole::Admin);
    assert_eq!(s.users[0].failed_login_attempts, 0);
    assert_eq!(s.users[0].locked_until, None);
    assert!(s.users[0].last_login.is_some());
    let (outcome, tokens) = s.login_with_tokens_at(&jwt, "admin@mevshield.com", "WrongPassword123!", 1_700_000_001_000);
    assert!(matches!(outcome, AuthOutcome::Refused(_)));
    assert!(tokens.is_none());
}

use mev_shield::access::{can_access_with_role, User, UserRole};

fn create_test_user() -> User {
    User::new(
        "test@example.com".to_string(),
        "hashed_password".to_string(),
        UserRole::User,
    )
}

#[test]
fn test_user_roles() {
    assert!(UserRole::Admin.is_admin());
    assert!(!UserRole::User.is_admin());

    assert!(UserRole::Admin.can_access_protected());
    assert!(UserRole::User.can_access_protected());
    assert!(UserRole::Validator.can_access_protected());
    assert!(!UserRole::ReadOnly.can_access_protected());

    assert!(UserRole::Admin.can_view_analytics());
    assert!(UserRole::User.can_view_analytics());
    assert!(UserRole::ReadOnly.can_view_analytics());
}

#[test]
fn test_role_access_control() {
    assert!(can_access_with_role(&UserRole::Admin, &UserRole::Admin));
    assert!(can_access_with_role(&UserRole::Admin, &UserRole::User));
    assert!(can_access_with_role(&UserRole::Admin, &UserRole::Validator));
    assert!(can_access_with_role(&UserRole::Admin, &UserRole::ReadOnly));

    assert!(!can_access_with_role(&UserRole::User, &UserRole::Admin));
    assert!(can_access_with_role(&UserRole::User, &UserRole::User));
    assert!(!can_access_with_role(&UserRole::User, &UserRole::Validator));
    assert!(can_access_with_role(&UserRole::User, &UserRole::ReadOnly));

    assert!(!can_access_with_role(&UserRole::ReadOnly, &UserRole::Admin));
    assert!(!can_access_with_role(&UserRole::ReadOnly, &UserRole::User));
    assert!(!can_access_with_role(&UserRole::ReadOnly, &UserRole::Validator));
    assert!(can_access_with_role(&UserRole::ReadOnly, &UserRole::ReadOnly));
}

#[test]
fn test_user_creation() {
    let user = create_test_user();
    assert_eq!(user.email, "test@example.com");
    assert_eq!(user.role, UserRole::User);
    assert!(user.is_active);
    assert_eq!(user.failed_login_attempts, 0);
    assert!(user.locked_until.is_none());
}

#[test]
fn test_account_locking() {
    let mut user = create_test_user();
    assert!(!user.is_locked());
    user.lock_account(15);
    assert!(user.is_locked());
    user.unlock_account();
    assert!(!user.is_locked());
    assert_eq!(user.failed_login_attempts, 0);
}

#[test]
fn test_failed_login_attempts() {
    let mut user = create_test_user();
    for i in 1..5 {
        user.record_failed_login();
        assert_eq!(user.failed_login_attempts, i);
        assert!(!user.is_locked());
    }
    user.record_failed_login();
    assert_eq!(user.failed_login_attempts, 5);
    assert!(user.is_locked());
}

#[test]
fn fifth_failure_locks_at_given_time() {
    let mut user = User::new_at("a@b.c".to_string(), "h".to_string(), UserRole::ReadOnly, 7, 1_000);
    for _ in 0..4 {
        user.record_failed_login_at(1_000);
        assert!(!user.is_locked_at(1_000));
    }
    user.record_failed_login_at(2_000);
    assert_eq!(user.locked_until, Some(2_000 + 15 * 60_000));
    assert!(user.is_locked_at(2_000 + 15 * 60_000 - 1));
    assert!(!user.is_locked_at(2_000 + 15 * 60_000));
    user.record_successful_login_at(3_000);
    assert_eq!(user.last_login, Some(3_000));
    assert!(!user.is_locked_at(3_000));
}

#[test]
fn lock_deadline_saturates() {
    let mut user = User::new_at("a@b.c".to_string(), "h".to_string(), UserRole::User, 1, i64::MAX - 5);
    user.lock_account_at(i64::MAX - 5, 10);
    assert_eq!(user.locked_until, Some(i64::MAX));
    user.lock_account_at(0, -2);
    assert_eq!(user.locked_until, Some(-120_000));
}

#[test]
fn public_info_copies_fields() {
    let user = User::new_at("x@y.z".to_string(), "h".to_string(), UserRole::Validator, 42, 5);
    let info = user.to_public_info();
    assert_eq!(info.id, 42);
    assert_eq!(info.email, "x@y.z");
    assert_eq!(info.role, UserRole::Validator);
    assert_eq!(info.last_login, None);
}

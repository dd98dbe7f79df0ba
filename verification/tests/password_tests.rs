use mev_shield::password::{PasswordConfig, PasswordError, PasswordService, PasswordStrength};

#[test]
fn test_password_hashing_and_verification() {
    let service = PasswordService::new();
    let password = "SecurePass123!@#";
    let hash = service.hash_password(password).expect("Password hashing failed");
    assert!(!hash.is_empty());
    let is_valid = service.verify_password(password, &hash).expect("Verification failed");
    assert!(is_valid);
    let is_invalid = service.verify_password("WrongPassword", &hash).expect("Verification failed");
    assert!(!is_invalid);
}

#[test]
fn test_password_validation() {
    let service = PasswordService::new();
    assert!(service.validate_password_strength("SecurePass123!@#").is_ok());
    assert!(matches!(service.validate_password_strength("Short1!"), Err(PasswordError::TooShort)));
    assert!(matches!(service.validate_password_strength("securepass123!@#"), Err(PasswordError::NoUppercase)));
    assert!(matches!(service.validate_password_strength("SECUREPASS123!@#"), Err(PasswordError::NoLowercase)));
    assert!(matches!(service.validate_password_strength("SecurePass!@#"), Err(PasswordError::NoDigit)));
    assert!(matches!(service.validate_password_strength("SecurePass123"), Err(PasswordError::NoSpecialChar)));
    assert!(matches!(service.validate_password_strength("Password123!"), Err(PasswordError::TooCommon)));
}

#[test]
fn test_password_generation() {
    let service = PasswordService::new();
    let password = service.generate_password(16);
    assert_eq!(password.len(), 16);
    assert!(service.validate_password_strength(&password).is_ok());
}

#[test]
fn test_strength_assessment() {
    let service = PasswordService::new();
    assert_eq!(service.assess_strength("weak"), PasswordStrength::Weak);
    assert_eq!(service.assess_strength("SecurePass123!@#"), PasswordStrength::Good);
}

#[test]
fn strength_as_str_names() {
    assert_eq!(PasswordStrength::Weak.as_str(), "weak");
    assert_eq!(PasswordStrength::Fair.as_str(), "fair");
    assert_eq!(PasswordStrength::Good.as_str(), "good");
    assert_eq!(PasswordStrength::Strong.as_str(), "strong");
}

#[test]
fn charset_sizes() {
    let service = PasswordService::new();
    assert_eq!(service.charset_size("password"), 26);
    assert_eq!(service.charset_size("Tr0ub4dor&3"), 85);
    assert_eq!(service.charset_size(""), 0);
    assert_eq!(service.charset_size("ABC123"), 36);
}

#[test]
fn strength_levels_exact() {
    let service = PasswordService::new();
    assert_eq!(service.assess_strength("password"), PasswordStrength::Fair);
    assert_eq!(service.assess_strength(""), PasswordStrength::Weak);
    assert_eq!(service.assess_strength("Aa1!Aa1!Aa1!Aa1!"), PasswordStrength::Good);
    assert_eq!(service.assess_strength("Aa1!Aa1!Aa1!Aa1!Aa1!"), PasswordStrength::Strong);
}

#[test]
fn invalid_characters_and_config() {
    let service = PasswordService::new();
    assert!(matches!(service.validate_password_strength("SecurePass123!\u{7f}"), Err(PasswordError::InvalidCharacters)));
    assert!(matches!(service.validate_password_strength("Secure Pass123!@#é"), Err(PasswordError::InvalidCharacters)));
    assert!(matches!(service.validate_password_strength("SecureADMIN123!@#"), Err(PasswordError::TooCommon)));
    let lax = PasswordService::with_config(PasswordConfig {
        min_length: 4,
        require_uppercase: false,
        require_lowercase: false,
        require_digit: false,
        require_special_char: false,
        check_common_passwords: false,
    });
    assert!(lax.validate_password_strength("admin").is_ok());
    assert!(matches!(lax.validate_password_strength("abc"), Err(PasswordError::TooShort)));
}

#[test]
fn hash_with_fixed_salt_is_deterministic_and_rejects_weak() {
    let service = PasswordService::new();
    let a = service.hash_password_with_salt("SecurePass123!@#", "c29tZXNhbHQxMjM0NTY3OA").unwrap();
    let b = service.hash_password_with_salt("SecurePass123!@#", "c29tZXNhbHQxMjM0NTY3OA").unwrap();
    assert_eq!(a, b);
    assert!(a.starts_with("$argon2id$"));
    assert!(matches!(service.hash_password("short"), Err(PasswordError::TooShort)));
    assert!(matches!(service.verify_password("x", "not a hash"), Err(PasswordError::VerificationError(_))));
}

#[test]
fn generated_passwords_cover_classes() {
    let service = PasswordService::new();
    let p = service.generate_password(3);
    assert_eq!(p.chars().count(), 12);
    assert!(p.chars().any(|c| c.is_ascii_uppercase()));
    assert!(p.chars().any(|c| c.is_ascii_lowercase()));
    assert!(p.chars().any(|c| c.is_ascii_digit()));
}

#[test]
fn salted_hash_verifies_its_own_password_only() {
    let service = PasswordService::new();
    let h = service.hash_password_with_salt("Gr8!Shield#Key42", "c29tZXNhbHQxMjM0NTY3OA").unwrap();
    assert_eq!(service.verify_password("Gr8!Shield#Key42", &h), Ok(true));
    assert_eq!(service.verify_password("Gr8!Shield#Key43", &h), Ok(false));
}

#[test]
fn empty_or_unprefixed_hash_is_an_error() {
    let service = PasswordService::new();
    assert!(matches!(service.verify_password("SecurePass123!@#", ""), Err(PasswordError::VerificationError(_))));
    assert!(matches!(
        service.verify_password("SecurePass123!@#", "argon2id$v=19"),
        Err(PasswordError::VerificationError(_))
    ));
}

use mev_shield::cli::{
    format_as_table, is_final_status, list_params, mev_analytics_params, time_lock_text, validate_address,
    validate_transaction_id,
};

#[test]
fn test_validate_address() {
    assert!(validate_address("0x742d35cc6465c3c962800060acea9d8ac2e7a0cf").is_ok());
    assert!(validate_address("0x1234567890123456789012345678901234567890").is_ok());
    assert!(validate_address("742d35cc6465c3c962800060acea9d8ac2e7a0cf").is_err());
    assert!(validate_address("0x742d35cc6465c3c962800060acea9d8ac2e7a0c").is_err());
    assert!(validate_address("0x742d35cc6465c3c962800060acea9d8ac2e7a0cg").is_err());
}

#[test]
fn test_validate_transaction_id() {
    assert!(validate_transaction_id("550e8400-e29b-41d4-a716-446655440000").is_ok());
    assert!(validate_transaction_id("not-a-uuid").is_err());
    assert!(validate_transaction_id("").is_err());
}

#[test]
fn address_errors_are_told_apart() {
    assert_eq!(validate_address("0x12"), Err("Invalid Ethereum address format".to_string()));
    assert_eq!(
        validate_address("0x742d35cc6465c3c962800060acea9d8ac2e7a0cg"),
        Err("Invalid hex characters in address".to_string())
    );
}

#[test]
fn query_parameters() {
    let p = list_params(20, 40, Some("pending".to_string()), Some(137));
    assert_eq!(
        p,
        vec![
            ("limit".to_string(), "20".to_string()),
            ("offset".to_string(), "40".to_string()),
            ("status".to_string(), "pending".to_string()),
            ("chain_id".to_string(), "137".to_string()),
        ]
    );
    assert_eq!(mev_analytics_params("7d".to_string(), None), vec![("timeframe".to_string(), "7d".to_string())]);
    assert!(is_final_status("executed") && is_final_status("failed") && !is_final_status("pending"));
    assert_eq!(time_lock_text(30), "30s");
}

#[test]
fn table_rows_pad_keys_to_twenty() {
    let rows = vec![
        ("status".to_string(), "ok".to_string()),
        ("a_key_longer_than_twenty".to_string(), "x".to_string()),
    ];
    let expected = format!("{:<20} {}\n{:<20} {}\n", "status", "ok", "a_key_longer_than_twenty", "x");
    assert_eq!(format_as_table(&rows), expected);
    assert_eq!(format_as_table(&Vec::new()), "");
}

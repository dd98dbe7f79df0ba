use mev_shield::api::{mev_analytics_response, submission_failure, submission_success, system_status_response};

#[test]
fn test_mev_analytics() {
    let r = mev_analytics_response(None);
    assert!(r.success);
    assert_eq!(r.data.timeframe, "24h");
    assert_eq!(r.data.protected_transactions, 12567);
    assert_eq!(r.data.mev_types[1], ("frontrun".to_string(), "4000000000000000000".to_string()));
    assert_eq!(mev_analytics_response(Some("24h".to_string())).data.timeframe, "24h");
    assert_eq!(mev_analytics_response(Some("7d".to_string())).data.timeframe, "7d");
}

#[test]
fn test_system_status() {
    let r = system_status_response("1.0.0".to_string(), "2024-01-01T00:00:00+00:00");
    assert!(r.success);
    assert_eq!(r.data.status, "operational");
    assert_eq!(r.data.services.len(), 3);
    assert_eq!(r.data.services[2].0, "ordering");
    assert_eq!(r.data.services[2].1.latency.as_deref(), Some("89ms"));
}

#[test]
fn submission_answers() {
    let ok = submission_success("id".to_string(), "h".to_string(), "t".to_string(), "Maximum".to_string());
    assert_eq!(ok.data.unwrap().fees.estimated_gas, "23000");
    let bad = submission_failure("Invalid transaction: x".to_string());
    assert!(!bad.success && bad.data.is_none());
}

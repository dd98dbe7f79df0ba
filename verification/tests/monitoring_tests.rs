use mev_shield::monitoring::{
    threat_alerts, AlertSeverity, AlertSystem, AlertType, SecurityAlert, SecurityMetrics, ThreatDetector,
    ThreatSeverity,
};

fn alert(n: i64) -> SecurityAlert {
    SecurityAlert {
        severity: AlertSeverity::Low,
        alert_type: AlertType::MEVDetected,
        message: format!("alert {}", n),
        details: vec![("k".to_string(), "v".to_string())],
        timestamp: n,
    }
}

#[test]
fn alert_log_keeps_the_last_thousand() {
    let mut log = AlertSystem::new();
    for i in 0..1005 {
        log.store_alert(alert(i));
    }
    assert_eq!(log.alerts.len(), 1000);
    assert_eq!(log.alerts[0].timestamp, 5);
    let recent = log.get_recent_alerts(2);
    assert_eq!(recent.len(), 2);
    assert_eq!(recent[1].message, "alert 1004");
    assert_eq!(recent[1].details, vec![("k".to_string(), "v".to_string())]);
    log.clear_alerts();
    assert!(log.get_recent_alerts(10).is_empty());
}

#[test]
fn threats_from_counters() {
    let d = ThreatDetector;
    let m = SecurityMetrics {
        failed_decryptions: 11,
        suspicious_transactions: 5,
        rate_limit_violations: 101,
        authentication_failures: 0,
        unusual_gas_patterns: 0,
    };
    let t = d.analyze_metrics(&m);
    assert_eq!(t.len(), 2);
    assert_eq!(t[0].severity, ThreatSeverity::High);
    assert_eq!(t[0].description, "High number of failed decryptions: 11");
    assert_eq!(t[1].threat_type, "RateLimitViolation");
    let alerts = threat_alerts(t, 42);
    assert_eq!(alerts.len(), 1);
    assert_eq!(alerts[0].severity, AlertSeverity::High);
    assert_eq!(alerts[0].alert_type, AlertType::AnomalousActivity);
    assert_eq!(alerts[0].timestamp, 42);
    assert_eq!(ThreatSeverity::Critical.rank(), 4);
}

#[test]
fn sending_alerts_stores_them_in_order() {
    let mut log = AlertSystem::new();
    log.send_alerts((0..998).map(alert).collect());
    assert_eq!(log.alerts.len(), 998);
    log.send_alerts(vec![alert(2000), alert(2001), alert(2002)]);
    assert_eq!(log.alerts.len(), 1000);
    assert_eq!(log.alerts[0].timestamp, 1);
    assert_eq!(log.alerts[999].timestamp, 2002);
    log.send_alerts(Vec::new());
    assert_eq!(log.alerts.len(), 1000);
}

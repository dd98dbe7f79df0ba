use mev_shield::encryption::ThresholdCrypto;
use mev_shield::config::{DetectionConfig, EncryptionConfig, OrderingConfig};
use mev_shield::detection::{DetectionService, MEVType};
use mev_shield::error::MEVShieldError;
use mev_shield::shield::MEVShieldCore;
use mev_shield::types::{Address, ProtectionLevel, Transaction};

const NOW: i64 = 1_700_000_000_000;

fn tx(nonce: u64, gas_price: u128) -> Transaction {
    Transaction {
        from: Address([1u8; 20]),
        to: Address([2u8; 20]),
        value: 1_000_000_000_000_000_000,
        gas: 21_000,
        gas_price,
        gas_used: 21_000,
        nonce,
        data: Vec::new(),
        chain_id: 1,
        submission_time: NOW + nonce as i64,
    }
}

fn shield_core() -> MEVShieldCore {
    let encryption = EncryptionConfig {
        threshold: 3,
        total_validators: 5,
        max_pool_size: 1000,
        cleanup_interval: 60,
        encryption_timeout: 30,
        minimum_age: 1,
    };
    let ordering =
        OrderingConfig { vdf_difficulty: 100, vdf_security_param: 64, batch_size: 5, computation_timeout: 10, verify_proofs: false };
    MEVShieldCore::new(encryption, ordering, DetectionConfig::default()).unwrap()
}

#[test]
fn screening_takes_high_gas_for_mev() {
    let service = DetectionService::new(DetectionConfig::default());
    let clear = service.analyze_transaction(&tx(0, 100_000_000_000)).unwrap();
    assert!(!clear.is_mev_detected());
    assert_eq!(clear.confidence, 0);
    assert_eq!(clear.details, "Analysis complete");
    let suspect = service.analyze_transaction(&tx(0, 100_000_000_001)).unwrap();
    assert!(suspect.is_mev_detected());
    assert_eq!(suspect.mev_type, Some(MEVType::Unknown));
    assert_eq!(suspect.confidence, 85);
    let batch = service
        .analyze_transaction_batch(&[tx(0, 1), tx(1, 200_000_000_000), tx(2, 300_000_000_000)])
        .unwrap();
    assert!(!batch.is_mev_free);
    assert_eq!(batch.detected_patterns, vec![MEVType::Unknown, MEVType::Unknown]);
    assert!(service.analyze_transaction_batch(&[tx(0, 1)]).unwrap().is_mev_free);
}

#[test]
fn core_refuses_a_threshold_above_the_validators() {
    let encryption = EncryptionConfig {
        threshold: 6,
        total_validators: 5,
        max_pool_size: 10,
        cleanup_interval: 60,
        encryption_timeout: 30,
        minimum_age: 1,
    };
    let ordering =
        OrderingConfig { vdf_difficulty: 100, vdf_security_param: 64, batch_size: 5, computation_timeout: 10, verify_proofs: false };
    assert!(MEVShieldCore::new(encryption, ordering, DetectionConfig::default()).is_err());
}

#[test]
fn protected_submission_schedules_by_level() {
    let mut core = shield_core();
    let t = tx(0, 20_000_000_000);
    let res = core.submit_protected_transaction_at(&t, b"payload", ProtectionLevel::Standard, NOW).unwrap();
    assert!(res.protection_applied);
    assert!(!res.mev_detected);
    assert_eq!(res.original_hash, t.hash());
    assert_eq!(res.execution_schedule.time_lock_duration, 10);
    assert_eq!(res.execution_schedule.estimated_execution_time, NOW + 10_000);
    assert_eq!(res.estimated_savings, t.value / 1000);
    assert_eq!(core.encryption_service.pool_size(), 1);
}

#[test]
fn protected_submission_refusals() {
    let mut core = shield_core();
    let mut big = tx(0, 1);
    big.value = 10_000_000_000_000_000_000_000_001;
    match core.submit_protected_transaction_at(&big, b"x", ProtectionLevel::Basic, NOW) {
        Err(MEVShieldError::InvalidTransaction(m)) => assert_eq!(m, "Value too large"),
        _ => panic!("value refusal expected"),
    }
    let mut heavy = tx(0, 1);
    heavy.gas = 30_000_001;
    match core.submit_protected_transaction_at(&heavy, b"x", ProtectionLevel::Basic, NOW) {
        Err(MEVShieldError::InvalidTransaction(m)) => assert_eq!(m, "Gas limit too high"),
        _ => panic!("gas refusal expected"),
    }
    assert_eq!(core.encryption_service.pool_size(), 0);
    match core.submit_protected_transaction_at(&tx(0, 150_000_000_000), b"x", ProtectionLevel::Basic, NOW) {
        Err(MEVShieldError::MEVDetected(d)) => assert_eq!(d.confidence, 85),
        _ => panic!("MEV refusal expected"),
    }
    // The refused transaction stays sealed in the pool.
    assert_eq!(core.encryption_service.pool_size(), 1);
}

#[test]
fn ready_transactions_decrypt_to_their_payloads() {
    let mut core = shield_core();
    core.submit_protected_transaction_at(&tx(0, 1), b"first", ProtectionLevel::Basic, NOW).unwrap();
    core.submit_protected_transaction_at(&tx(1, 2), b"second", ProtectionLevel::Basic, NOW).unwrap();
    assert!(core.decrypt_ready_transactions_at(1, NOW).unwrap().is_empty());
    let mut payloads = core.decrypt_ready_transactions_at(1, NOW + 60_000).unwrap();
    payloads.sort();
    assert_eq!(payloads, vec![b"first".to_vec(), b"second".to_vec()]);
    assert_eq!(core.encryption_service.pool_size(), 0);
}

#[test]
fn batch_processing_orders_and_screens() {
    let core = shield_core();
    let ordered = core.process_transaction_batch_at(vec![tx(0, 1), tx(1, 2), tx(2, 3)], NOW).unwrap();
    let mut nonces: Vec<u64> = ordered.iter().map(|t| t.nonce).collect();
    nonces.sort();
    assert_eq!(nonces, vec![0, 1, 2]);
    match core.process_transaction_batch_at(vec![tx(0, 1), tx(1, 500_000_000_000)], NOW) {
        Err(MEVShieldError::BatchMEVDetected(b)) => {
            assert!(!b.is_mev_free);
            assert_eq!(b.detected_patterns, vec![MEVType::Unknown]);
        }
        _ => panic!("batch refusal expected"),
    }
}

#[test]
fn status_of_a_protected_transaction_is_pending() {
    let core = shield_core();
    let s = core.get_transaction_status(42).unwrap();
    assert_eq!(s.id, 42);
    assert_eq!(s.status, mev_shield::types::ExecutionStatus::Pending);
    assert!(s.block_number.is_none() && s.block_hash.is_none() && s.transaction_hash.is_none());
    assert!(!s.protection_details.mev_detected);
    assert_eq!(s.protection_details.savings_amount, 0);
    assert_eq!(
        s.protection_details.protection_methods,
        vec![mev_shield::types::ProtectionMethod::Encryption, mev_shield::types::ProtectionMethod::FairOrdering]
    );
}

#[test]
fn protecting_a_sealed_transaction_uses_the_given_id() {
    let mut core = shield_core();
    let t = tx(3, 20_000_000_000);
    let sealed = ThresholdCrypto::new(3, 5).unwrap().seal_with_nonce(b"bytes", [3u8; 12], NOW).unwrap();
    let r = core.protect_sealed_at(&t, sealed, 42, ProtectionLevel::Maximum, NOW).unwrap();
    assert_eq!(r.transaction_id, 42);
    assert_eq!(r.original_hash, t.hash());
    assert!(r.protection_applied && !r.mev_detected);
    assert_eq!(r.estimated_savings, t.value / 1000);
    assert_eq!(core.encryption_service.pool_size(), 1);
}

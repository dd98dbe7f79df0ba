use mev_shield::shield::{calculate_execution_schedule, estimate_mev_savings, validate_transaction};
use mev_shield::types::{Address, ProtectionLevel, Transaction};
use mev_shield::error::MEVShieldError;

fn tx(value: u128, gas: u64) -> Transaction {
    Transaction {
        from: Address([1u8; 20]),
        to: Address([2u8; 20]),
        value,
        gas,
        gas_price: 20_000_000_000,
        gas_used: 0,
        nonce: 0,
        data: Vec::new(),
        chain_id: 1,
        submission_time: 0,
    }
}

#[test]
fn protection_limits() {
    assert!(validate_transaction(&tx(1_000, 21_000)).is_ok());
    match validate_transaction(&tx(10_000_000_000_000_000_000_000_001, 21_000)) {
        Err(MEVShieldError::InvalidTransaction(m)) => assert_eq!(m, "Value too large"),
        _ => panic!("expected a refusal"),
    }
    match validate_transaction(&tx(1, 30_000_001)) {
        Err(MEVShieldError::InvalidTransaction(m)) => assert_eq!(m, "Gas limit too high"),
        _ => panic!("expected a refusal"),
    }
    assert!(validate_transaction(&tx(10_000_000_000_000_000_000_000_000, 30_000_000)).is_ok());
}

#[test]
fn schedules_and_savings() {
    let s = calculate_execution_schedule(ProtectionLevel::Maximum, 7, 1_000);
    assert_eq!(s.time_lock_duration, 15);
    assert_eq!(s.estimated_execution_time, 16_000);
    assert_eq!(s.ordering_priority, 7);
    assert_eq!(estimate_mev_savings(&tx(1_234_567, 0)), 1_234);
}


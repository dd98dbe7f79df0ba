use mev_shield::config::{DetectionConfig, EncryptionConfig, OrderingConfig, RedistributionConfig};
use mev_shield::detection::{
    AntiMEVDetectionService, DEXDecoder, DEXOperationType, SandwichDetectionConfig, SandwichDetector,
};
use mev_shield::encryption::{DecryptionShare, EncryptedMempoolService, ThresholdCrypto};
use mev_shield::ordering::{compute_vdf_output, BatchProcessor, FairOrderingService, OrderingCommitment, VDFParameters};
use mev_shield::redistribution::MEVRedistributionService;
use mev_shield::types::{Address, EncryptedTransaction, MEVPatternType, Priority, Transaction, TxHash};
use mev_shield::u256::U256;

const NOW: i64 = 1_700_000_000_000;

fn create_test_transaction() -> Transaction {
    Transaction {
        from: Address([1u8; 20]),
        to: Address([2u8; 20]),
        value: 1_000_000_000_000_000_000,
        gas: 21_000,
        gas_price: 20_000_000_000,
        gas_used: 21_000,
        nonce: 0,
        data: Vec::new(),
        chain_id: 1,
        submission_time: NOW,
    }
}

#[test]
fn test_sandwich_detector_configuration() {
    let config = SandwichDetectionConfig {
        max_distance: 5,
        min_profit_threshold: U256::from_u128(1_000_000_000_000_000),
        same_token_required: true,
        confidence_weight: 80,
    };
    let detector = SandwichDetector::new(config);
    assert_eq!(detector.pattern_type(), MEVPatternType::SandwichAttack);
    assert_eq!(detector.confidence_threshold(), 80);
}

#[test]
fn test_threshold_crypto() {
    let crypto = ThresholdCrypto::new(3, 5).unwrap();
    let data = b"Hello, MEV Shield!";
    let ciphertext = crypto.encrypt(data).unwrap();
    assert!(!ciphertext.data.is_empty());
    let shares = vec![
        DecryptionShare { validator_index: 0, data: vec![0u8; 32], signature: vec![0u8; 64] },
        DecryptionShare { validator_index: 1, data: vec![1u8; 32], signature: vec![1u8; 64] },
        DecryptionShare { validator_index: 2, data: vec![2u8; 32], signature: vec![2u8; 64] },
    ];
    let decrypted = crypto.decrypt(&ciphertext, &shares).unwrap();
    assert_eq!(decrypted, data);
}

#[test]
fn test_vdf_computation() {
    let params = VDFParameters { difficulty: 10, security_param: 64, modulus: vec![0x07, 0xff], batch_size: 1 };
    let input = vec![123u8];
    let output = compute_vdf_output(&input, &params).unwrap();
    let value = output.iter().fold(0u64, |acc, b| acc * 256 + *b as u64);
    assert!(value < 2047);
    assert!(value > 0);
    assert_eq!(value, 1158);
    let output2 = compute_vdf_output(&input, &params).unwrap();
    assert_eq!(output, output2);
}

#[test]
fn test_dex_decoder() {
    let decoder = DEXDecoder::new();
    let mut tx = create_test_transaction();
    tx.data = vec![0xa9, 0x05, 0x9c, 0xbb];
    tx.data.extend_from_slice(&[0u8; 160]);
    let operation = decoder.decode_operation(&tx).unwrap();
    assert_eq!(operation.operation_type, DEXOperationType::SwapExactIn);
    tx.data = vec![0x38, 0xed, 0x17, 0x39];
    tx.data.extend_from_slice(&[0u8; 160]);
    assert!(decoder.decode_operation(&tx).is_err());
    tx.data = vec![0xa9, 0x05, 0x9c, 0xbb];
    assert!(decoder.decode_operation(&tx).is_err());
}

#[test]
fn test_detection_service_creation() {
    let service = AntiMEVDetectionService::new(DetectionConfig::default());
    assert_eq!(service.detector_count(), 3);
}

#[test]
fn test_transaction_analysis() {
    let mut config = DetectionConfig::default();
    config.frontrun_detection_enabled = false;
    config.arbitrage_detection_enabled = false;
    let mut service = AntiMEVDetectionService::new(config);
    let result = service.analyze_transaction_at(&create_test_transaction(), NOW).unwrap();
    assert_eq!(result.transaction_count, 1);
    assert!(result.is_mev_free);
}

fn encryption_config() -> EncryptionConfig {
    EncryptionConfig {
        threshold: 3,
        total_validators: 5,
        max_pool_size: 1000,
        cleanup_interval: 60,
        encryption_timeout: 30,
        minimum_age: 1,
    }
}

#[test]
fn test_encrypt_decrypt_transaction() {
    let mut service = EncryptedMempoolService::new(encryption_config()).unwrap();
    let tx = create_test_transaction();
    let bytes = b"serialized transaction".to_vec();
    let encrypted = service.encrypt_transaction_at(&tx, &bytes, NOW).unwrap();
    assert!(!encrypted.encrypted_data.is_empty());
    assert!(encrypted.time_lock.is_some());
    assert!(service.decrypt_transaction_at(encrypted.clone(), NOW).is_err());
    let decrypted = service.decrypt_transaction_at(encrypted, NOW + 2_000).unwrap();
    assert_eq!(decrypted, bytes);
    assert_eq!(service.pool_size(), 0);
}

#[test]
fn test_ready_transactions() {
    let mut service = EncryptedMempoolService::new(encryption_config()).unwrap();
    for i in 0..3 {
        let mut tx = create_test_transaction();
        tx.nonce = i;
        service.encrypt_transaction_at(&tx, &[i as u8; 8], NOW).unwrap();
    }
    assert_eq!(service.get_ready_transactions_at(100, NOW).unwrap().len(), 0);
    assert_eq!(service.get_ready_transactions_at(100, NOW + 2_000).unwrap().len(), 3);
}

#[test]
fn test_ordering_service_creation() {
    let config =
        OrderingConfig { vdf_difficulty: 1000, vdf_security_param: 128, batch_size: 10, computation_timeout: 30, verify_proofs: true };
    let service = FairOrderingService::new(config).unwrap();
    assert!(service.vdf_params.difficulty > 0);
}

fn ordering_config() -> OrderingConfig {
    OrderingConfig { vdf_difficulty: 100, vdf_security_param: 64, batch_size: 5, computation_timeout: 10, verify_proofs: false }
}

#[test]
fn test_transaction_ordering() {
    let service = FairOrderingService::new(ordering_config()).unwrap();
    let make = || {
        (0..3u64)
            .map(|i| {
                let mut tx = create_test_transaction();
                tx.nonce = i;
                tx.gas_price = ((30 - i * 5) * 1_000_000_000) as u128;
                tx
            })
            .collect::<Vec<_>>()
    };
    let ordered = service.order_transactions_at(make(), NOW).unwrap();
    let ordered2 = service.order_transactions_at(make(), NOW).unwrap();
    assert_eq!(ordered.len(), 3);
    let a: Vec<u64> = ordered.iter().map(|t| t.nonce).collect();
    let b: Vec<u64> = ordered2.iter().map(|t| t.nonce).collect();
    assert_eq!(a, b);
    let mut sorted = a.clone();
    sorted.sort();
    assert_eq!(sorted, vec![0, 1, 2]);
}

#[test]
fn test_ordering_commitment_creation() {
    let service = FairOrderingService::new(ordering_config()).unwrap();
    let encrypted_tx = EncryptedTransaction {
        id: TxHash([1u8; 32]),
        encrypted_data: vec![1, 2, 3, 4],
        submission_time: NOW,
        time_lock: None,
        priority: Priority::High,
        gas_price: 50_000_000_000,
        chain_id: 1,
    };
    let commitment = service.create_ordering_commitment(&encrypted_tx).unwrap();
    assert_eq!(commitment.transaction_hash.0, encrypted_tx.id.0);
    assert!(commitment.priority > 0);
    assert!(!commitment.commitment_hash.0.iter().all(|&b| b == 0));
}

#[test]
fn test_batch_processor() {
    let mut processor = BatchProcessor::new(3);
    for i in 0..5u8 {
        let commitment = OrderingCommitment {
            transaction_hash: TxHash([i; 32]),
            submission_time: NOW,
            priority_data: vec![i],
            commitment_hash: mev_shield::types::Hash([i; 32]),
            priority: i as u32,
        };
        processor.add_commitment_at(commitment, NOW).unwrap();
    }
    assert!(processor.queue_len() > 0);
    assert_eq!(processor.pending_len(), 2);
}

#[test]
fn redistribution_service_starts_empty() {
    let service = MEVRedistributionService::new_at(RedistributionConfig::default(), NOW).unwrap();
    assert_eq!(service.get_user_pending_rewards(&Address([9u8; 20])), 0);
}

#[test]
fn users_get_eighty_percent_of_captured_mev() {
    let mut service = MEVRedistributionService::new_at(RedistributionConfig::default(), NOW).unwrap();
    let block = mev_shield::detection::Block {
        number: 1,
        hash: mev_shield::types::Hash([1u8; 32]),
        parent_hash: mev_shield::types::Hash([0u8; 32]),
        timestamp: NOW,
        base_fee: 0,
        transactions: Vec::new(),
    };
    let mev = mev_shield::redistribution::MEVData {
        extracted_value: 1_000_000,
        builder_payment: 0,
        mev_type: mev_shield::redistribution::MEVType::Sandwich,
        affected_transactions: Vec::new(),
    };
    assert_eq!(service.capture_mev_from_block_at(&block, &mev, NOW), 1_000_000);
    let pool = service.pool_stats();
    assert_eq!(pool.total_captured, 1_000_000);
    assert_eq!(pool.available_for_distribution, 800_000);
    assert_eq!(pool.reserved_for_gas, 50_000);
}

#[test]
fn sealing_with_a_given_nonce_is_deterministic_and_opens() {
    let crypto = ThresholdCrypto::new(3, 5).unwrap();
    let a = crypto.seal_with_nonce(b"payload", [7u8; 12], NOW).unwrap();
    let b = crypto.seal_with_nonce(b"payload", [7u8; 12], NOW + 1).unwrap();
    assert_eq!(a.data, b.data);
    assert_eq!(a.nonce, [7u8; 12]);
    assert_eq!(a.data.len(), 7 + 16);
    assert_eq!(b.timestamp, NOW + 1);
    let c = crypto.seal_with_nonce(b"payload", [8u8; 12], NOW).unwrap();
    assert_ne!(a.data, c.data);
    assert_eq!(crypto.decrypt(&a, &[]).unwrap(), b"payload".to_vec());
}

#[test]
fn storing_a_sealed_transaction_respects_the_pool_limit() {
    let mut config = encryption_config();
    config.max_pool_size = 1;
    let mut service = EncryptedMempoolService::new(config).unwrap();
    let crypto = ThresholdCrypto::new(3, 5).unwrap();
    let tx = create_test_transaction();
    let sealed = crypto.seal_with_nonce(b"one", [1u8; 12], NOW).unwrap();
    let e = service.store_encrypted_at(&tx, sealed, NOW).unwrap();
    assert_eq!(e.id, tx.hash());
    assert_eq!(e.submission_time, NOW);
    assert_eq!(e.time_lock.unwrap().unlock_time, NOW + 2_000);
    assert_eq!(service.pool_size(), 1);
    let sealed = crypto.seal_with_nonce(b"two", [2u8; 12], NOW).unwrap();
    let mut other = create_test_transaction();
    other.nonce = 9;
    match service.store_encrypted_at(&other, sealed, NOW) {
        Err(mev_shield::error::MEVShieldError::ResourceExhausted(m)) => assert_eq!(m, "Encrypted mempool is full"),
        r => panic!("unexpected {:?}", r),
    }
    assert_eq!(service.pool_size(), 1);
}

use mev_shield::api::{convert_transaction_data, convert_transaction_data_at, AmountError, ConversionError, TransactionData};
use mev_shield::types::{Address, HexError};

fn data() -> TransactionData {
    TransactionData {
        from: "0x0101010101010101010101010101010101010101".to_string(),
        to: "0202020202020202020202020202020202020202".to_string(),
        value: "1000000000000000000".to_string(),
        gas: 21_000,
        gas_price: "20000000000".to_string(),
        nonce: 7,
        data: "0xdeadBEEF".to_string(),
    }
}

#[test]
fn api_data_converts() {
    let t = convert_transaction_data_at(&data(), 1, 1234).unwrap();
    assert_eq!(t.from, Address([1u8; 20]));
    assert_eq!(t.to, Address([2u8; 20]));
    assert_eq!(t.value, 1_000_000_000_000_000_000);
    assert_eq!(t.gas_price, 20_000_000_000);
    assert_eq!(t.data, vec![0xde, 0xad, 0xbe, 0xef]);
    assert_eq!(t.gas, 21_000);
    assert_eq!(t.gas_used, 0);
    assert_eq!(t.nonce, 7);
    assert_eq!(t.chain_id, 1);
    assert_eq!(t.submission_time, 1234);
    assert_eq!(convert_transaction_data(&data(), 56).unwrap().chain_id, 56);
}

#[test]
fn amounts_read_as_big_integers_do() {
    let mut d = data();
    d.value = "+1_000".to_string();
    assert_eq!(convert_transaction_data_at(&d, 1, 0).unwrap().value, 1000);
    d.value = "_1".to_string();
    assert!(matches!(convert_transaction_data_at(&d, 1, 0), Err(ConversionError::InvalidAmount(AmountError::Invalid))));
    d.value = "".to_string();
    assert!(matches!(convert_transaction_data_at(&d, 1, 0), Err(ConversionError::InvalidAmount(AmountError::Invalid))));
    d.value = "340282366920938463463374607431768211456".to_string();
    assert!(matches!(convert_transaction_data_at(&d, 1, 0), Err(ConversionError::InvalidAmount(AmountError::TooLarge))));
    let mut g = data();
    g.gas_price = "12a".to_string();
    assert!(matches!(convert_transaction_data_at(&g, 1, 0), Err(ConversionError::InvalidAmount(AmountError::Invalid))));
}

#[test]
fn bad_addresses_and_data_are_refused() {
    let mut d = data();
    d.from = "0x0101".to_string();
    assert!(matches!(
        convert_transaction_data_at(&d, 1, 0),
        Err(ConversionError::InvalidAddress(HexError::InvalidStringLength))
    ));
    let mut d = data();
    d.to = "zz".to_string();
    assert!(matches!(
        convert_transaction_data_at(&d, 1, 0),
        Err(ConversionError::InvalidAddress(HexError::InvalidHexCharacter { c: 'z', index: 0 }))
    ));
    let mut d = data();
    d.data = "0xabc".to_string();
    assert!(matches!(convert_transaction_data_at(&d, 1, 0), Err(ConversionError::InvalidData(HexError::OddLength))));
    let mut d = data();
    d.data = String::new();
    assert_eq!(convert_transaction_data_at(&d, 1, 0).unwrap().data, Vec::<u8>::new());
}

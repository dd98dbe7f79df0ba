use mev_shield::dex::is_popular_token;
use mev_shield::types::Address;

#[test]
fn popular_tokens_are_recognised() {
    let weth = Address::from_str("0xc02aaa39b223fe8d0a0e5c4f27ead9083c756cc2").unwrap();
    assert!(is_popular_token(&weth));
    let dai = Address::from_str("6b175474e89094c44da98b954eedeac495271d0f").unwrap();
    assert!(is_popular_token(&dai));
    assert!(!is_popular_token(&Address([0u8; 20])));
    assert!(!is_popular_token(&Address([0xc0u8; 20])));
}

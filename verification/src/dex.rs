//! Token rules of the DEX protection: the tokens whose pools are liquid enough to be
//! considered popular.
use vstd::prelude::*;
use vstd::string::StringSliceAdditionalSpecFns;
use vstd::utf8::encode_utf8;
use crate::api::address_of;
use crate::types::Address;

verus! {

/// The popular tokens as checksummed text: WETH, USDC, USDT and DAI.
pub open spec fn popular_token_texts() -> Seq<Seq<char>> {
    seq![
        "0xC02aaA39b223FE8D0A0e5C4F27eAD9083C756Cc2"@,
        "0xA0b86991c6218b36c1d19D4a2e9Eb0cE3606eB48"@,
        "0xdAC17F958D2ee523a2206206994597C13D831ec7"@,
        "0x6B175474E89094C44Da98b954EedeAC495271d0F"@,
    ]
}

/// Whether `token` is the address that `text` reads as.
fn reads_as(text: &str, token: &Address) -> (r: bool)
    ensures
        r == (address_of(encode_utf8(text@)) == Ok::<Seq<u8>, crate::types::HexError>(token.0@)),
{
    match Address::from_str(text) {
        Ok(a) => a == *token,
        Err(_) => false,
    }
}

/// Whether a token is one of the popular ones (WETH, USDC, USDT, DAI).
pub fn is_popular_token(token: &Address) -> (r: bool)
    ensures
        r == exists|i: int|
            0 <= i < 4 && address_of(encode_utf8(#[trigger] popular_token_texts()[i])) == Ok::<
                Seq<u8>,
                crate::types::HexError,
            >(token.0@),
{
    let weth = reads_as("0xC02aaA39b223FE8D0A0e5C4F27eAD9083C756Cc2", token);
    let usdc = reads_as("0xA0b86991c6218b36c1d19D4a2e9Eb0cE3606eB48", token);
    let usdt = reads_as("0xdAC17F958D2ee523a2206206994597C13D831ec7", token);
    let dai = reads_as("0x6B175474E89094C44Da98b954EedeAC495271d0F", token);
    proof {
        let t = popular_token_texts();
        assert(t[0] == "0xC02aaA39b223FE8D0A0e5C4F27eAD9083C756Cc2"@);
        assert(t[1] == "0xA0b86991c6218b36c1d19D4a2e9Eb0cE3606eB48"@);
        assert(t[2] == "0xdAC17F958D2ee523a2206206994597C13D831ec7"@);
        assert(t[3] == "0x6B175474E89094C44Da98b954EedeAC495271d0F"@);
    }
    weth || usdc || usdt || dai
}

} // verus!

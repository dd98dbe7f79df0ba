//! The bodies of the public API's answers, and the conversion of transaction data as the
//! API receives it. Maps in the answers are lists of (key, value) pairs, in the order the
//! service fills them.
use vstd::prelude::*;
use vstd::string::StringSliceAdditionalSpecFns;
use vstd::utf8::encode_utf8;
use crate::types::{hex_decode, hex_decode_spec, strip_0x, strip_0x_bytes, Address, HexError, Transaction};

verus! {

/// Fees quoted for a protected transaction, in wei and gas units as decimal text.
#[derive(Debug, Clone)]
pub struct TransactionFees {
    pub protection_fee: String,
    pub estimated_gas: String,
}

/// What the service reports of an accepted transaction.
#[derive(Debug, Clone)]
pub struct TransactionSubmissionData {
    pub transaction_id: String,
    pub encrypted_hash: String,
    pub estimated_execution: String,
    pub protection_level: String,
    pub fees: TransactionFees,
}

/// The answer to a transaction submission.
#[derive(Debug, Clone)]
pub struct SubmitTransactionResponse {
    pub success: bool,
    pub data: Option<TransactionSubmissionData>,
    pub error: Option<String>,
}

/// Query parameters of a transaction listing.
#[derive(Debug, Clone)]
pub struct TransactionQuery {
    pub limit: Option<u32>,
    pub offset: Option<u32>,
    pub status: Option<String>,
    pub chain_id: Option<u64>,
}

/// MEV analytics over a time frame; amounts are wei as decimal text.
#[derive(Debug, Clone)]
pub struct MEVAnalyticsData {
    pub timeframe: String,
    pub total_mev_captured: String,
    pub total_distributed: String,
    pub protected_transactions: u64,
    pub average_savings: String,
    pub mev_types: Vec<(String, String)>,
}

/// The answer to an analytics request.
#[derive(Debug, Clone)]
pub struct MEVAnalyticsResponse {
    pub success: bool,
    pub data: MEVAnalyticsData,
}

/// The state of one service.
#[derive(Debug, Clone)]
pub struct ServiceStatus {
    pub status: String,
    pub latency: Option<String>,
    pub last_check: String,
}

/// The state of the system and its services.
#[derive(Debug, Clone)]
pub struct SystemStatusData {
    pub version: String,
    pub uptime: String,
    pub status: String,
    pub services: Vec<(String, ServiceStatus)>,
}

/// The answer to a status request.
#[derive(Debug, Clone)]
pub struct SystemStatusResponse {
    pub success: bool,
    pub data: SystemStatusData,
}

/// The answer of the gateway's transaction handler.
#[derive(Debug, Clone)]
pub struct TransactionResponse {
    pub success: bool,
    pub transaction_id: Option<String>,
    pub error: Option<String>,
}

/// The answer to a refused submission: no data, the reason as the error.
pub fn submission_failure(reason: String) -> (r: SubmitTransactionResponse)
    ensures
        !r.success,
        r.data is None,
        r.error == Some(reason),
{
    SubmitTransactionResponse { success: false, data: None, error: Some(reason) }
}

/// The answer to an accepted submission, with the standard fee quote (0.005 ETH
/// protection fee, 23000 gas).
pub fn submission_success(
    transaction_id: String,
    encrypted_hash: String,
    estimated_execution: String,
    protection_level: String,
) -> (r: SubmitTransactionResponse)
    ensures
        r.success,
        r.error is None,
        r.data matches Some(d) && d.transaction_id == transaction_id && d.encrypted_hash == encrypted_hash
            && d.estimated_execution == estimated_execution && d.protection_level == protection_level
            && d.fees.protection_fee@ == "5000000000000000"@ && d.fees.estimated_gas@ == "23000"@,
{
    SubmitTransactionResponse {
        success: true,
        data: Some(
            TransactionSubmissionData {
                transaction_id,
                encrypted_hash,
                estimated_execution,
                protection_level,
                fees: TransactionFees {
                    protection_fee: String::from_str("5000000000000000"),
                    estimated_gas: String::from_str("23000"),
                },
            },
        ),
        error: None,
    }
}

/// The analytics answer for the requested time frame (`24h` where none is given).
pub fn mev_analytics_response(timeframe: Option<String>) -> (r: MEVAnalyticsResponse)
    ensures
        r.success,
        match timeframe {
            Some(t) => r.data.timeframe == t,
            None => r.data.timeframe@ == "24h"@,
        },
        r.data.total_mev_captured@ == "15000000000000000000"@,
        r.data.total_distributed@ == "12000000000000000000"@,
        r.data.protected_transactions == 12567,
        r.data.average_savings@ == "500000000000000"@,
        r.data.mev_types@.len() == 3,
        r.data.mev_types@[0].0@ == "sandwich"@ && r.data.mev_types@[0].1@ == "8000000000000000000"@,
        r.data.mev_types@[1].0@ == "frontrun"@ && r.data.mev_types@[1].1@ == "4000000000000000000"@,
        r.data.mev_types@[2].0@ == "arbitrage"@ && r.data.mev_types@[2].1@ == "3000000000000000000"@,
{
    let timeframe = match timeframe {
        Some(t) => t,
        None => String::from_str("24h"),
    };
    let mut mev_types: Vec<(String, String)> = Vec::new();
    mev_types.push((String::from_str("sandwich"), String::from_str("8000000000000000000")));
    mev_types.push((String::from_str("frontrun"), String::from_str("4000000000000000000")));
    mev_types.push((String::from_str("arbitrage"), String::from_str("3000000000000000000")));
    MEVAnalyticsResponse {
        success: true,
        data: MEVAnalyticsData {
            timeframe,
            total_mev_captured: String::from_str("15000000000000000000"),
            total_distributed: String::from_str("12000000000000000000"),
            protected_transactions: 12567,
            average_savings: String::from_str("500000000000000"),
            mev_types,
        },
    }
}

/// A healthy service with the given latency, checked at `checked_at`.
fn healthy(latency: &str, checked_at: &str) -> (s: ServiceStatus)
    ensures
        s.status@ == "healthy"@,
        s.latency matches Some(l) && l@ == latency@,
        s.last_check@ == checked_at@,
{
    ServiceStatus {
        status: String::from_str("healthy"),
        latency: Some(String::from_str(latency)),
        last_check: String::from_str(checked_at),
    }
}

/// The status answer: the given version, operational, and the encryption, detection and
/// ordering services healthy (45, 12 and 89 ms), each checked at `checked_at`.
pub fn system_status_response(version: String, checked_at: &str) -> (r: SystemStatusResponse)
    ensures
        r.success,
        r.data.version == version,
        r.data.uptime@ == "72h 14m 32s"@,
        r.data.status@ == "operational"@,
        r.data.services@.len() == 3,
        r.data.services@[0].0@ == "encryption"@,
        r.data.services@[1].0@ == "detection"@,
        r.data.services@[2].0@ == "ordering"@,
        forall|i: int|
            0 <= i < 3 ==> (#[trigger] r.data.services@[i]).1.status@ == "healthy"@
                && r.data.services@[i].1.last_check@ == checked_at@,
        r.data.services@[0].1.latency matches Some(l) && l@ == "45ms"@,
        r.data.services@[1].1.latency matches Some(l) && l@ == "12ms"@,
        r.data.services@[2].1.latency matches Some(l) && l@ == "89ms"@,
{
    let mut services: Vec<(String, ServiceStatus)> = Vec::new();
    services.push((String::from_str("encryption"), healthy("45ms", checked_at)));
    services.push((String::from_str("detection"), healthy("12ms", checked_at)));
    services.push((String::from_str("ordering"), healthy("89ms", checked_at)));
    SystemStatusResponse {
        success: true,
        data: SystemStatusData {
            version,
            uptime: String::from_str("72h 14m 32s"),
            status: String::from_str("operational"),
            services,
        },
    }
}

/// Transaction fields as the API receives them: addresses and data as hexadecimal text
/// (with or without `0x`), amounts in wei as decimal text.
#[derive(Debug, Clone)]
pub struct TransactionData {
    pub from: String,
    pub to: String,
    pub value: String,
    pub gas: u64,
    pub gas_price: String,
    pub nonce: u64,
    pub data: String,
}

/// Why an amount was refused: not a number, or more wei than a `u128` holds.
#[derive(Debug, Clone, Copy, PartialEq, Eq, Structural)]
pub enum AmountError {
    Invalid,
    TooLarge,
}

/// Why transaction data from the API did not convert.
#[derive(Debug, Clone, Copy, PartialEq, Eq, Structural)]
pub enum ConversionError {
    InvalidAddress(HexError),
    InvalidAmount(AmountError),
    InvalidData(HexError),
}

/// The value of decimal digits with `_` separators anywhere but first; nothing for
/// another character.
pub open spec fn separated_digits_value(s: Seq<char>) -> Option<nat>
    decreases s.len(),
{
    if s.len() == 0 {
        Some(0)
    } else {
        match separated_digits_value(s.drop_last()) {
            Some(v) => if s.last() == '_' {
                Some(v)
            } else if '0' <= s.last() <= '9' {
                Some((v * 10 + (s.last() as int - 48)) as nat)
            } else {
                None
            },
            None => None,
        }
    }
}

/// The number that `num_bigint::BigUint` reads from decimal text: one leading `+` (not
/// followed by another) is dropped; the rest must be non-empty, not start with `_`, and
/// hold only digits and `_`.
pub open spec fn big_decimal_value(s: Seq<char>) -> Option<nat> {
    let t = if s.len() > 0 && s[0] == '+' && !(s.len() > 1 && s[1] == '+') {
        s.drop_first()
    } else {
        s
    };
    if t.len() == 0 || t[0] == '_' {
        None
    } else {
        separated_digits_value(t)
    }
}

/// An amount of wei as a `u128`.
pub open spec fn amount_of(s: Seq<char>) -> Result<u128, AmountError> {
    match big_decimal_value(s) {
        Some(n) => if n <= u128::MAX {
            Ok(n as u128)
        } else {
            Err(AmountError::TooLarge)
        },
        None => Err(AmountError::Invalid),
    }
}

/// `str::parse::<num_bigint::BigUint>` followed by `u128::try_from`. Stated: the number
/// read is `big_decimal_value` of the text, as the crate's `from_str_radix` reads base 10;
/// a parse error is `Invalid`, a number above `u128::MAX` is `TooLarge`.
#[verifier::external_body]
fn parse_amount(s: &str) -> (r: Result<u128, AmountError>)
    ensures
        r == amount_of(s@),
{
    match s.parse::<num_bigint::BigUint>() {
        Ok(b) => match u128::try_from(&b) {
            Ok(v) => Ok(v),
            Err(_) => Err(AmountError::TooLarge),
        },
        Err(_) => Err(AmountError::Invalid),
    }
}

/// The address that the bytes of a text decode to.
pub open spec fn address_of(b: Seq<u8>) -> Result<Seq<u8>, HexError> {
    match hex_decode_spec(strip_0x(b)) {
        Ok(v) => if v.len() == 20 {
            Ok(v)
        } else {
            Err(HexError::InvalidStringLength)
        },
        Err(e) => Err(e),
    }
}

/// The first thing wrong with transaction data, checked in the order from, to, value,
/// gas price, data.
pub open spec fn conversion_error(data: TransactionData) -> Option<ConversionError> {
    if address_of(encode_utf8(data.from@)) is Err {
        Some(ConversionError::InvalidAddress(address_of(encode_utf8(data.from@))->Err_0))
    } else if address_of(encode_utf8(data.to@)) is Err {
        Some(ConversionError::InvalidAddress(address_of(encode_utf8(data.to@))->Err_0))
    } else if amount_of(data.value@) is Err {
        Some(ConversionError::InvalidAmount(amount_of(data.value@)->Err_0))
    } else if amount_of(data.gas_price@) is Err {
        Some(ConversionError::InvalidAmount(amount_of(data.gas_price@)->Err_0))
    } else if hex_decode_spec(strip_0x(encode_utf8(data.data@))) is Err {
        Some(ConversionError::InvalidData(hex_decode_spec(strip_0x(encode_utf8(data.data@)))->Err_0))
    } else {
        None
    }
}

/// Converts transaction data from the API into a transaction of `chain_id` submitted at
/// `now`; gas used starts at 0.
pub fn convert_transaction_data_at(data: &TransactionData, chain_id: u64, now: i64) -> (r: Result<
    Transaction,
    ConversionError,
>)
    ensures
        conversion_error(*data) matches Some(e) ==> r == Err::<Transaction, ConversionError>(e),
        conversion_error(*data) is None ==> (r matches Ok(t) && Ok::<Seq<u8>, HexError>(t.from.0@) == address_of(
            encode_utf8(data.from@),
        ) && Ok::<Seq<u8>, HexError>(t.to.0@) == address_of(encode_utf8(data.to@)) && Ok::<u128, AmountError>(
            t.value,
        ) == amount_of(data.value@) && Ok::<u128, AmountError>(t.gas_price) == amount_of(data.gas_price@)
            && Ok::<Seq<u8>, HexError>(t.data@) == hex_decode_spec(strip_0x(encode_utf8(data.data@))) && t.gas
            == data.gas && t.gas_used == 0 && t.nonce == data.nonce && t.chain_id == chain_id && t.submission_time
            == now),
{
    let from = match Address::from_str(data.from.as_str()) {
        Ok(a) => a,
        Err(e) => return Err(ConversionError::InvalidAddress(e)),
    };
    let to = match Address::from_str(data.to.as_str()) {
        Ok(a) => a,
        Err(e) => return Err(ConversionError::InvalidAddress(e)),
    };
    let value = match parse_amount(data.value.as_str()) {
        Ok(v) => v,
        Err(e) => return Err(ConversionError::InvalidAmount(e)),
    };
    let gas_price = match parse_amount(data.gas_price.as_str()) {
        Ok(v) => v,
        Err(e) => return Err(ConversionError::InvalidAmount(e)),
    };
    let hex = strip_0x_bytes(data.data.as_str());
    let tx_data = match hex_decode(hex.as_slice()) {
        Ok(d) => d,
        Err(e) => return Err(ConversionError::InvalidData(e)),
    };
    Ok(
        Transaction {
            from,
            to,
            value,
            gas: data.gas,
            gas_price,
            gas_used: 0,
            nonce: data.nonce,
            data: tx_data,
            chain_id,
            submission_time: now,
        },
    )
}

/// Converts transaction data from the API into a transaction of `chain_id` submitted now.
pub fn convert_transaction_data(data: &TransactionData, chain_id: u64) -> (r: Result<Transaction, ConversionError>)
    ensures
        conversion_error(*data) matches Some(e) ==> r == Err::<Transaction, ConversionError>(e),
        conversion_error(*data) is None ==> (r matches Ok(t) && t.chain_id == chain_id && t.nonce == data.nonce
            && t.gas == data.gas),
{
    convert_transaction_data_at(data, chain_id, crate::clock::now_millis())
}

} // verus!

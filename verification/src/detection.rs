//! MEV detection: decoding of DEX calls, sandwich patterns over a batch, profit and
//! confidence, and the detection service that keeps a history and filters alerts.
//! Confidences are whole percentages.
use vstd::prelude::*;
use crate::config::DetectionConfig;
use crate::error::{DetectionError, MEVShieldError};
use crate::types::{keccak256, tx_hash_preimage, Address, AlertSeverity, MEVPatternType, Transaction, TxHash};
use crate::u256::{be_value, mul_div, u256_bound, U256};

verus! {

/// Types of DEX operations.
#[derive(Debug, Clone, Copy, PartialEq, Eq, Structural)]
pub enum DEXOperationType {
    Buy,
    Sell,
    SwapExactIn,
    SwapExactOut,
    AddLiquidity,
    RemoveLiquidity,
}

/// Router functions that the decoder knows.
#[derive(Debug, Clone, Copy, PartialEq, Eq, Structural)]
pub enum DEXFunction {
    SwapExactTokensForTokens,
    SwapTokensForExactTokens,
    SwapExactETHForTokens,
    SwapTokensForExactETH,
    AddLiquidity,
    RemoveLiquidity,
}

/// A decoded DEX operation.
#[derive(Debug, Clone, Copy)]
pub struct DEXOperation {
    pub operation_type: DEXOperationType,
    pub token_in: Address,
    pub token_out: Address,
    pub amount_in: U256,
    pub amount_out: U256,
    pub minimum_amount_out: U256,
    pub deadline: U256,
    pub gas_price: U256,
}

/// Why a transaction could not be decoded.
#[derive(Debug, Clone, Copy, PartialEq, Eq, Structural)]
pub enum DecodeFailure {
    /// Fewer than four bytes of call data: `DecodingFailed("Insufficient data")`.
    InsufficientData,
    /// A token swap with fewer than 164 bytes: `DecodingFailed("Invalid data length")`.
    InvalidLength,
    /// A selector the decoder does not know: `UnsupportedOperation`.
    Unsupported,
}

/// The service error that reports a decoding failure.
pub open spec fn reports_failure(e: MEVShieldError, f: DecodeFailure) -> bool {
    match f {
        DecodeFailure::InsufficientData => e matches MEVShieldError::Detection(
            DetectionError::DecodingFailed(m),
        ) && m@ == "Insufficient data"@,
        DecodeFailure::InvalidLength => e matches MEVShieldError::Detection(
            DetectionError::DecodingFailed(m),
        ) && m@ == "Invalid data length"@,
        DecodeFailure::Unsupported => e matches MEVShieldError::Detection(
            DetectionError::UnsupportedOperation,
        ),
    }
}

/// The four-byte selector at the head of `d` equals `a b c e`.
pub open spec fn selector_is(d: Seq<u8>, a: u8, b: u8, c: u8, e: u8) -> bool {
    d[0] == a && d[1] == b && d[2] == c && d[3] == e
}

/// The router function whose selector heads the call data (at least four bytes).
pub open spec fn function_for(d: Seq<u8>) -> Option<DEXFunction> {
    if selector_is(d, 0xa9, 0x05, 0x9c, 0xbb) {
        Some(DEXFunction::SwapExactTokensForTokens)
    } else if selector_is(d, 0x87, 0x86, 0x44, 0x56) {
        Some(DEXFunction::SwapTokensForExactTokens)
    } else if selector_is(d, 0x7f, 0xf3, 0x6a, 0xb5) {
        Some(DEXFunction::SwapExactETHForTokens)
    } else if selector_is(d, 0x47, 0x46, 0x80, 0x8e) {
        Some(DEXFunction::SwapTokensForExactETH)
    } else {
        None
    }
}

/// The 32-byte big-endian word of `d` at `start`, or zero where the data is shorter.
pub open spec fn word_or_zero(d: Seq<u8>, start: int) -> nat {
    if d.len() >= start + 32 {
        be_value(d.subrange(start, start + 32))
    } else {
        0
    }
}

/// The bytes of the zero address.
pub open spec fn zero_address() -> Seq<u8> {
    Seq::new(20, |i: int| 0u8)
}

/// The fields of an operation as numbers: type, tokens, amount in, amount out, minimum
/// out, deadline and gas price.
pub open spec fn op_is(
    op: DEXOperation,
    t: DEXOperationType,
    amount_in: nat,
    amount_out: nat,
    minimum_amount_out: nat,
    deadline: nat,
    gas_price: nat,
) -> bool {
    &&& op.operation_type == t
    &&& op.token_in.0@ == zero_address()
    &&& op.token_out.0@ == zero_address()
    &&& op.amount_in.value() == amount_in
    &&& op.amount_out.value() == amount_out
    &&& op.minimum_amount_out.value() == minimum_amount_out
    &&& op.deadline.value() == deadline
    &&& op.gas_price.value() == gas_price
}

/// What decoding the call data `d` of a transaction with value `value` and gas price
/// `gas_price` yields: the failure, or a predicate that the operation meets. Token
/// addresses are not read from the swap path: both are the zero address.
pub open spec fn decoded(d: Seq<u8>, value: u128, gas_price: u128, op: DEXOperation) -> bool {
    d.len() >= 4 && match function_for(d) {
        Some(DEXFunction::SwapExactTokensForTokens) => d.len() >= 164 && op_is(
            op,
            DEXOperationType::SwapExactIn,
            word_or_zero(d, 4),
            0,
            word_or_zero(d, 36),
            word_or_zero(d, 132),
            gas_price as nat,
        ),
        Some(DEXFunction::SwapTokensForExactTokens) => d.len() >= 164 && op_is(
            op,
            DEXOperationType::SwapExactOut,
            word_or_zero(d, 36),
            word_or_zero(d, 4),
            word_or_zero(d, 4),
            word_or_zero(d, 132),
            gas_price as nat,
        ),
        Some(DEXFunction::SwapExactETHForTokens) => op_is(
            op,
            DEXOperationType::SwapExactIn,
            value as nat,
            0,
            word_or_zero(d, 4),
            0,
            gas_price as nat,
        ),
        Some(DEXFunction::SwapTokensForExactETH) => op_is(
            op,
            DEXOperationType::SwapExactOut,
            word_or_zero(d, 36),
            word_or_zero(d, 4),
            word_or_zero(d, 4),
            0,
            gas_price as nat,
        ),
        _ => false,
    }
}

/// The failure, if any, of decoding the call data `d`.
pub open spec fn decode_failure(d: Seq<u8>) -> Option<DecodeFailure> {
    if d.len() < 4 {
        Some(DecodeFailure::InsufficientData)
    } else {
        match function_for(d) {
            Some(DEXFunction::SwapExactTokensForTokens) | Some(DEXFunction::SwapTokensForExactTokens) =>
                if d.len() < 164 {
                Some(DecodeFailure::InvalidLength)
            } else {
                None
            },
            Some(DEXFunction::SwapExactETHForTokens) | Some(DEXFunction::SwapTokensForExactETH) => None,
            _ => Some(DecodeFailure::Unsupported),
        }
    }
}

/// The contract of a decoding: on failure the error that reports it, else an operation
/// as `decoded` describes.
pub open spec fn decode_result(tx: Transaction, r: Result<DEXOperation, MEVShieldError>) -> bool {
    match decode_failure(tx.data@) {
        Some(f) => r matches Err(e) && reports_failure(e, f),
        None => r matches Ok(op) && decoded(tx.data@, tx.value, tx.gas_price, op),
    }
}

/// The selector table of the decoder.
pub open spec fn signature_table() -> Seq<([u8; 4], DEXFunction)> {
    seq![
        ([0xa9u8, 0x05u8, 0x9cu8, 0xbbu8], DEXFunction::SwapExactTokensForTokens),
        ([0x87u8, 0x86u8, 0x44u8, 0x56u8], DEXFunction::SwapTokensForExactTokens),
        ([0x7fu8, 0xf3u8, 0x6au8, 0xb5u8], DEXFunction::SwapExactETHForTokens),
        ([0x47u8, 0x46u8, 0x80u8, 0x8eu8], DEXFunction::SwapTokensForExactETH),
    ]
}

/// Decoder for DEX router calls, keyed by four-byte selector.
pub struct DEXDecoder {
    function_signatures: Vec<([u8; 4], DEXFunction)>,
}

impl DEXDecoder {
    /// The table holds the four known swap selectors.
    #[verifier::type_invariant]
    spec fn table_ok(self) -> bool {
        self.function_signatures@ == signature_table()
    }

    /// The selector table the decoder looks calls up in.
    pub closed spec fn signatures(&self) -> Seq<([u8; 4], DEXFunction)> {
        self.function_signatures@
    }

    /// A decoder that knows the four token and ETH swap functions.
    pub fn new() -> (d: Self)
        ensures
            d.signatures() == signature_table(),
    {
        let mut function_signatures: Vec<([u8; 4], DEXFunction)> = Vec::new();
        function_signatures.push(([0xa9, 0x05, 0x9c, 0xbb], DEXFunction::SwapExactTokensForTokens));
        function_signatures.push(([0x87, 0x86, 0x44, 0x56], DEXFunction::SwapTokensForExactTokens));
        function_signatures.push(([0x7f, 0xf3, 0x6a, 0xb5], DEXFunction::SwapExactETHForTokens));
        function_signatures.push(([0x47, 0x46, 0x80, 0x8e], DEXFunction::SwapTokensForExactETH));
        assert(function_signatures@ =~= signature_table());
        DEXDecoder { function_signatures }
    }

    /// The function registered for the selector at the head of `d`.
    fn lookup(&self, d: &[u8]) -> (r: Option<DEXFunction>)
        requires
            d@.len() >= 4,
        ensures
            r == function_for(d@),
    {
        proof {
            use_type_invariant(self);
        }
        let mut i: usize = 0;
        while i < self.function_signatures.len()
            invariant
                self.function_signatures@ == signature_table(),
                d@.len() >= 4,
                i <= 4,
                forall|k: int|
                    0 <= k < i ==> !selector_is(
                        d@,
                        signature_table()[k].0[0],
                        signature_table()[k].0[1],
                        signature_table()[k].0[2],
                        signature_table()[k].0[3],
                    ),
            decreases 4 - i,
        {
            let entry = &self.function_signatures[i];
            let sel = &entry.0;
            if d[0] == sel[0] && d[1] == sel[1] && d[2] == sel[2] && d[3] == sel[3] {
                return Some(entry.1);
            }
            i = i + 1;
        }
        None
    }

    /// Decodes the DEX operation that a transaction's call data asks for.
    pub fn decode_operation(&self, tx: &Transaction) -> (r: Result<DEXOperation, MEVShieldError>)
        ensures
            decode_result(*tx, r),
    {
        if tx.data.len() < 4 {
            return Err(MEVShieldError::Detection(DetectionError::DecodingFailed(String::from_str("Insufficient data"))));
        }
        match self.lookup(tx.data.as_slice()) {
            Some(DEXFunction::SwapExactTokensForTokens) => self.decode_swap_exact_tokens_for_tokens(tx),
            Some(DEXFunction::SwapTokensForExactTokens) => self.decode_swap_tokens_for_exact_tokens(tx),
            Some(DEXFunction::SwapExactETHForTokens) => self.decode_swap_exact_eth_for_tokens(tx),
            Some(DEXFunction::SwapTokensForExactETH) => self.decode_swap_tokens_for_exact_eth(tx),
            _ => Err(MEVShieldError::Detection(DetectionError::UnsupportedOperation)),
        }
    }

    /// `swapExactTokensForTokens(amountIn, amountOutMin, path, to, deadline)`.
    fn decode_swap_exact_tokens_for_tokens(&self, tx: &Transaction) -> (r: Result<DEXOperation, MEVShieldError>)
        requires
            tx.data@.len() >= 4,
            function_for(tx.data@) == Some(DEXFunction::SwapExactTokensForTokens),
        ensures
            decode_result(*tx, r),
    {
        if tx.data.len() < 164 {
            return Err(MEVShieldError::Detection(DetectionError::DecodingFailed(String::from_str("Invalid data length"))));
        }
        let d = tx.data.as_slice();
        let amount_in = word_at(d, 4);
        let amount_out_min = word_at(d, 36);
        let deadline = word_at(d, 132);
        Ok(DEXOperation {
            operation_type: DEXOperationType::SwapExactIn,
            token_in: zero_addr(),
            token_out: zero_addr(),
            amount_in,
            amount_out: U256::zero(),
            minimum_amount_out: amount_out_min,
            deadline,
            gas_price: U256::from_u128(tx.gas_price),
        })
    }

    /// `swapTokensForExactTokens(amountOut, amountInMax, path, to, deadline)`.
    fn decode_swap_tokens_for_exact_tokens(&self, tx: &Transaction) -> (r: Result<DEXOperation, MEVShieldError>)
        requires
            tx.data@.len() >= 4,
            function_for(tx.data@) == Some(DEXFunction::SwapTokensForExactTokens),
        ensures
            decode_result(*tx, r),
    {
        if tx.data.len() < 164 {
            return Err(MEVShieldError::Detection(DetectionError::DecodingFailed(String::from_str("Invalid data length"))));
        }
        let d = tx.data.as_slice();
        let amount_out = word_at(d, 4);
        let amount_in_max = word_at(d, 36);
        let deadline = word_at(d, 132);
        Ok(DEXOperation {
            operation_type: DEXOperationType::SwapExactOut,
            token_in: zero_addr(),
            token_out: zero_addr(),
            amount_in: amount_in_max,
            amount_out,
            minimum_amount_out: amount_out,
            deadline,
            gas_price: U256::from_u128(tx.gas_price),
        })
    }

    /// `swapExactETHForTokens(amountOutMin, path, to, deadline)`: the amount in is the value sent.
    fn decode_swap_exact_eth_for_tokens(&self, tx: &Transaction) -> (r: Result<DEXOperation, MEVShieldError>)
        requires
            tx.data@.len() >= 4,
            function_for(tx.data@) == Some(DEXFunction::SwapExactETHForTokens),
        ensures
            decode_result(*tx, r),
    {
        let d = tx.data.as_slice();
        let amount_out_min = word_or_zero_at(d, 4);
        Ok(DEXOperation {
            operation_type: DEXOperationType::SwapExactIn,
            token_in: zero_addr(),
            token_out: zero_addr(),
            amount_in: U256::from_u128(tx.value),
            amount_out: U256::zero(),
            minimum_amount_out: amount_out_min,
            deadline: U256::zero(),
            gas_price: U256::from_u128(tx.gas_price),
        })
    }

    /// `swapTokensForExactETH(amountOut, amountInMax, path, to, deadline)`.
    fn decode_swap_tokens_for_exact_eth(&self, tx: &Transaction) -> (r: Result<DEXOperation, MEVShieldError>)
        requires
            tx.data@.len() >= 4,
            function_for(tx.data@) == Some(DEXFunction::SwapTokensForExactETH),
        ensures
            decode_result(*tx, r),
    {
        let d = tx.data.as_slice();
        let amount_out = word_or_zero_at(d, 4);
        let amount_in_max = word_or_zero_at(d, 36);
        Ok(DEXOperation {
            operation_type: DEXOperationType::SwapExactOut,
            token_in: zero_addr(),
            token_out: zero_addr(),
            amount_in: amount_in_max,
            amount_out,
            minimum_amount_out: amount_out,
            deadline: U256::zero(),
            gas_price: U256::from_u128(tx.gas_price),
        })
    }
}

/// The zero address, as the decoder reports tokens it does not read.
fn zero_addr() -> (a: Address)
    ensures
        a.0@ == zero_address(),
{
    let a = Address::zero();
    assert(a.0@ =~= zero_address());
    a
}

/// The word of `d` at `start`, which lies within the data.
fn word_at(d: &[u8], start: usize) -> (r: U256)
    requires
        start + 32 <= d@.len(),
    ensures
        r.value() == word_or_zero(d@, start as int),
{
    let mut w: Vec<u8> = Vec::new();
    let mut i: usize = 0;
    let n: usize = d.len();
    while i < 32
        invariant
            i <= 32,
            n == d@.len(),
            start + 32 <= d@.len(),
            w@ == d@.subrange(start as int, start + i),
        decreases 32 - i,
    {
        w.push(d[start + i]);
        proof {
            assert(w@ =~= d@.subrange(start as int, start + i + 1));
        }
        i = i + 1;
    }
    U256::from_big_endian(w.as_slice())
}

/// The word of `d` at `start`, or zero where the data is shorter.
fn word_or_zero_at(d: &[u8], start: usize) -> (r: U256)
    requires
        start <= 36,
    ensures
        r.value() == word_or_zero(d@, start as int),
{
    if d.len() >= start + 32 {
        word_at(d, start)
    } else {
        U256::zero()
    }
}

/// A price ratio between two tokens.
#[derive(Debug, Clone, Copy, PartialEq, Eq, Structural)]
pub struct PriceRatio {
    pub numerator: U256,
    pub denominator: U256,
}

/// Price oracle for token prices.
pub struct PriceOracle {
    cached_prices: Vec<(Address, U256)>,
}

impl PriceOracle {
    /// An oracle with no cached prices.
    pub fn new() -> (o: Self)
        ensures
            o.cached().len() == 0,
    {
        PriceOracle { cached_prices: Vec::new() }
    }

    /// The cached prices.
    pub closed spec fn cached(&self) -> Seq<(Address, U256)> {
        self.cached_prices@
    }

    /// The price of `token_a` in `token_b`: one to one for every pair.
    pub fn get_price_ratio(&self, token_a: &Address, token_b: &Address) -> (r: Result<PriceRatio, MEVShieldError>)
        ensures
            r matches Ok(p) && p.numerator.value() == 1 && p.denominator.value() == 1,
    {
        Ok(PriceRatio { numerator: U256::from_u128(1), denominator: U256::from_u128(1) })
    }
}

/// The profit of a buy then a sell: what the sell brings out, taken at the oracle's
/// one-to-one ratio where the tokens differ, less what the buy put in, or zero.
pub open spec fn sandwich_profit(buy: DEXOperation, sell: DEXOperation) -> nat {
    let out = if buy.token_in.0@ == sell.token_out.0@ {
        sell.amount_out.value()
    } else {
        sell.amount_out.value() * 1 / 1
    };
    if out > buy.amount_in.value() {
        (out - buy.amount_in.value()) as nat
    } else {
        0
    }
}

/// Profit calculator for MEV operations.
pub struct ProfitCalculator {
    price_oracle: PriceOracle,
}

impl ProfitCalculator {
    /// The prices the calculator's oracle has cached.
    pub closed spec fn cached_prices(&self) -> Seq<(Address, U256)> {
        self.price_oracle.cached()
    }

    /// A calculator with a fresh price oracle, which has cached no price.
    pub fn new() -> (c: Self)
        ensures
            c.cached_prices().len() == 0,
    {
        ProfitCalculator { price_oracle: PriceOracle::new() }
    }

    /// Profit of the buy `buy_op` and the sell `sell_op` of a sandwich.
    pub fn calculate_sandwich_profit(&self, buy_op: &DEXOperation, sell_op: &DEXOperation) -> (r: Result<U256, MEVShieldError>)
        ensures
            r matches Ok(p) && p.value() == sandwich_profit(*buy_op, *sell_op),
    {
        let buy_amount = &buy_op.amount_in;
        let sell_amount = &sell_op.amount_out;
        if buy_op.token_in == sell_op.token_out {
            if buy_amount.lt(sell_amount) {
                Ok(sell_amount.sub(buy_amount))
            } else {
                Ok(U256::zero())
            }
        } else {
            let price_ratio = match self.price_oracle.get_price_ratio(&buy_op.token_in, &sell_op.token_out) {
                Ok(p) => p,
                Err(e) => return Err(e),
            };
            proof {
                assert(sell_amount.value() * 1 / 1 == sell_amount.value());
                assert(sell_amount.value() < u256_bound()) by {
                    assert(sell_amount.hi < 0x1_0000_0000_0000_0000_0000_0000_0000_0000nat);
                    assert(sell_amount.hi as nat * 0x1_0000_0000_0000_0000_0000_0000_0000_0000nat + sell_amount.lo
                        < 0x1_0000_0000_0000_0000_0000_0000_0000_0000nat * 0x1_0000_0000_0000_0000_0000_0000_0000_0000nat)
                        by (nonlinear_arith)
                        requires
                            sell_amount.hi < 0x1_0000_0000_0000_0000_0000_0000_0000_0000nat,
                            sell_amount.lo < 0x1_0000_0000_0000_0000_0000_0000_0000_0000nat,
                    ;
                }
            }
            let normalized_sell = mul_div(sell_amount, &price_ratio.numerator, &price_ratio.denominator);
            if buy_amount.lt(&normalized_sell) {
                Ok(normalized_sell.sub(buy_amount))
            } else {
                Ok(U256::zero())
            }
        }
    }
}

/// `Buy` and `SwapExactIn` count as buys.
pub open spec fn is_buy(op: DEXOperation) -> bool {
    op.operation_type == DEXOperationType::Buy || op.operation_type == DEXOperationType::SwapExactIn
}

/// `Sell` and `SwapExactOut` count as sells.
pub open spec fn is_sell(op: DEXOperation) -> bool {
    op.operation_type == DEXOperationType::Sell || op.operation_type == DEXOperationType::SwapExactOut
}

/// Two operations go in opposite directions: mirrored tokens, or a buy against a sell.
pub open spec fn opposite_direction(op1: DEXOperation, op2: DEXOperation) -> bool {
    (op1.token_in.0@ == op2.token_out.0@ && op1.token_out.0@ == op2.token_in.0@) || (is_buy(op1) && is_sell(op2)) || (
    is_sell(op1) && is_buy(op2))
}

/// Confidence, in percent, that `op1, op2, op3` with profit `profit` is a sandwich: 60 for
/// the pattern, 20 more above 0.01 ETH of profit, 15 if the victim goes the other way, 10
/// for mirrored tokens, 5 if the victim pays the lowest gas price; at most 100.
pub open spec fn sandwich_confidence(op1: DEXOperation, op2: DEXOperation, op3: DEXOperation, profit: nat) -> nat {
    let c = 60 + (if profit > 10_000_000_000_000_000 { 20nat } else { 0nat }) + (if opposite_direction(op1, op2) {
        15nat
    } else {
        0nat
    }) + (if op1.token_in.0@ == op3.token_out.0@ && op1.token_out.0@ == op3.token_in.0@ {
        10nat
    } else {
        0nat
    }) + (if op1.gas_price.value() > op2.gas_price.value() && op3.gas_price.value() > op2.gas_price.value() {
        5nat
    } else {
        0nat
    });
    if c > 100 {
        100
    } else {
        c
    }
}

/// Severity of an alert by confidence: above 90 critical, above 80 high, else medium.
pub open spec fn severity_for(confidence: nat) -> AlertSeverity {
    if confidence > 90 {
        AlertSeverity::Critical
    } else if confidence > 80 {
        AlertSeverity::High
    } else {
        AlertSeverity::Medium
    }
}

/// Evidence of MEV activity.
#[derive(Debug)]
pub enum MEVEvidence {
    Sandwich {
        front_run_tx: TxHash,
        victim_tx: TxHash,
        back_run_tx: TxHash,
        profit_amount: U256,
        token_pair: (Address, Address),
    },
    FrontRun { attacker_tx: TxHash, victim_tx: TxHash, copied_data: Vec<u8>, time_advantage_ms: u64 },
    Arbitrage { arbitrage_txs: Vec<TxHash>, profit_amount: U256, exchanges: Vec<Address> },
}

/// An MEV alert; the confidence is in percent and the time in milliseconds since the epoch.
#[derive(Debug)]
pub struct MEVAlert {
    pub pattern_type: MEVPatternType,
    pub confidence: u32,
    pub affected_transactions: Vec<TxHash>,
    pub evidence: MEVEvidence,
    pub timestamp: i64,
    pub severity: AlertSeverity,
}

/// Configuration of sandwich detection.
#[derive(Debug, Clone, Copy, PartialEq, Eq, Structural)]
pub struct SandwichDetectionConfig {
    pub max_distance: usize,
    pub min_profit_threshold: U256,
    pub same_token_required: bool,
    /// Confidence threshold in percent.
    pub confidence_weight: u32,
}

/// The hash of a transaction is the Keccak-256 of its hash preimage.
pub open spec fn hashes(h: TxHash, tx: Transaction) -> bool {
    h.0@ == keccak256(tx_hash_preimage(tx))
}

/// A finding of the sandwich analysis: confidence, profit and the bytes of the front-run's
/// token pair.
pub type Finding = (nat, nat, (Seq<u8>, Seq<u8>));

/// The alert raised at `now` for the finding `f` on front-run `t1`, victim `t2` and
/// back-run `t3`.
pub open spec fn alert_for(a: MEVAlert, f: Finding, t1: Transaction, t2: Transaction, t3: Transaction, now: i64) -> bool {
    &&& a.pattern_type == MEVPatternType::SandwichAttack
    &&& a.confidence == f.0
    &&& a.affected_transactions@.len() == 3
    &&& hashes(a.affected_transactions@[0], t1)
    &&& hashes(a.affected_transactions@[1], t2)
    &&& hashes(a.affected_transactions@[2], t3)
    &&& a.evidence matches MEVEvidence::Sandwich { front_run_tx, victim_tx, back_run_tx, profit_amount, token_pair }
        && front_run_tx == a.affected_transactions@[0] && victim_tx == a.affected_transactions@[1]
        && back_run_tx == a.affected_transactions@[2] && profit_amount.value() == f.1 && token_pair.0.0@ == f.2.0
        && token_pair.1.0@ == f.2.1
    &&& a.timestamp == now
    &&& a.severity == severity_for(f.0)
}

/// The decoded operation of a transaction whose decoding does not fail.
pub open spec fn op_of(tx: Transaction) -> DEXOperation {
    choose|op: DEXOperation| decoded(tx.data@, tx.value, tx.gas_price, op)
}

/// What analysing `t1, t2, t3` as a sandwich gives: a decoding failure, nothing, or a
/// finding. The sender of the first and third must match, all three must call the same
/// contract, the first must buy and the third sell, the tokens must mirror where the
/// configuration asks it, and the profit must reach the threshold.
pub open spec fn sandwich_analysis(cfg: SandwichDetectionConfig, t1: Transaction, t2: Transaction, t3: Transaction) -> Result<Option<Finding>, DecodeFailure> {
    if t1.from.0@ != t3.from.0@ || t1.to.0@ != t2.to.0@ || t2.to.0@ != t3.to.0@ {
        Ok(None)
    } else if decode_failure(t1.data@) is Some {
        Err(decode_failure(t1.data@).unwrap())
    } else if decode_failure(t2.data@) is Some {
        Err(decode_failure(t2.data@).unwrap())
    } else if decode_failure(t3.data@) is Some {
        Err(decode_failure(t3.data@).unwrap())
    } else {
        let op1 = op_of(t1);
        let op2 = op_of(t2);
        let op3 = op_of(t3);
        let profit = sandwich_profit(op1, op3);
        if !is_buy(op1) || !is_sell(op3) {
            Ok(None)
        } else if cfg.same_token_required && (op1.token_in.0@ != op3.token_out.0@ || op1.token_out.0@
            != op3.token_in.0@) {
            Ok(None)
        } else if profit < cfg.min_profit_threshold.value() {
            Ok(None)
        } else {
            Ok(Some((sandwich_confidence(op1, op2, op3, profit), profit, (op1.token_in.0@, op1.token_out.0@))))
        }
    }
}

/// A sandwich needs one attacker: where the first and the third transaction have
/// different senders, or the three do not go to one router, the analysis finds nothing.
pub proof fn lemma_sandwich_needs_one_attacker(cfg: SandwichDetectionConfig, t1: Transaction, t2: Transaction, t3: Transaction)
    ensures
        t1.from.0@ != t3.from.0@ ==> sandwich_analysis(cfg, t1, t2, t3) == Ok::<Option<Finding>, DecodeFailure>(None),
        t1.to.0@ != t2.to.0@ || t2.to.0@ != t3.to.0@ ==> sandwich_analysis(cfg, t1, t2, t3) == Ok::<
            Option<Finding>,
            DecodeFailure,
        >(None),
{
}

/// Two decodings of one transaction agree.
proof fn lemma_decoded_unique(tx: Transaction, a: DEXOperation)
    requires
        decoded(tx.data@, tx.value, tx.gas_price, a),
    ensures
        decoded(tx.data@, tx.value, tx.gas_price, op_of(tx)),
        op_of(tx).operation_type == a.operation_type,
        op_of(tx).token_in.0@ == a.token_in.0@,
        op_of(tx).token_out.0@ == a.token_out.0@,
        op_of(tx).amount_in.value() == a.amount_in.value(),
        op_of(tx).amount_out.value() == a.amount_out.value(),
        op_of(tx).gas_price.value() == a.gas_price.value(),
{
}

/// Sandwich attack detector.
pub struct SandwichDetector {
    pub config: SandwichDetectionConfig,
    pub dex_decoder: DEXDecoder,
    pub profit_calculator: ProfitCalculator,
}

impl SandwichDetector {
    /// A detector with the given configuration.
    pub fn new(config: SandwichDetectionConfig) -> (d: Self)
        ensures
            d.config == config,
    {
        SandwichDetector { config, dex_decoder: DEXDecoder::new(), profit_calculator: ProfitCalculator::new() }
    }

    /// The pattern this detector looks for.
    pub fn pattern_type(&self) -> (p: MEVPatternType)
        ensures
            p == MEVPatternType::SandwichAttack,
    {
        MEVPatternType::SandwichAttack
    }

    /// The confidence threshold, in percent, that the configuration gives.
    pub fn confidence_threshold(&self) -> (t: u32)
        ensures
            t == self.config.confidence_weight,
    {
        self.config.confidence_weight
    }

    /// Whether the operation buys.
    pub fn is_buy_operation(&self, op: &DEXOperation) -> (r: bool)
        ensures
            r == is_buy(*op),
    {
        op.operation_type == DEXOperationType::Buy || op.operation_type == DEXOperationType::SwapExactIn
    }

    /// Whether the operation sells.
    pub fn is_sell_operation(&self, op: &DEXOperation) -> (r: bool)
        ensures
            r == is_sell(*op),
    {
        op.operation_type == DEXOperationType::Sell || op.operation_type == DEXOperationType::SwapExactOut
    }

    /// Whether two operations go in opposite directions.
    pub fn is_opposite_direction(&self, op1: &DEXOperation, op2: &DEXOperation) -> (r: bool)
        ensures
            r == opposite_direction(*op1, *op2),
    {
        (op1.token_in == op2.token_out && op1.token_out == op2.token_in) || (self.is_buy_operation(op1)
            && self.is_sell_operation(op2)) || (self.is_sell_operation(op1) && self.is_buy_operation(op2))
    }

    /// Confidence, in percent, that the three operations with `profit` form a sandwich.
    pub fn calculate_sandwich_confidence(
        &self,
        op1: &DEXOperation,
        op2: &DEXOperation,
        op3: &DEXOperation,
        profit: &U256,
    ) -> (c: u32)
        ensures
            c == sandwich_confidence(*op1, *op2, *op3, profit.value()),
    {
        let mut confidence: u32 = 60;
        let hundredth_eth = U256::from_u128(10_000_000_000_000_000);
        if hundredth_eth.lt(profit) {
            confidence = confidence + 20;
        }
        if self.is_opposite_direction(op1, op2) {
            confidence = confidence + 15;
        }
        if op1.token_in == op3.token_out && op1.token_out == op3.token_in {
            confidence = confidence + 10;
        }
        if op2.gas_price.lt(&op1.gas_price) && op2.gas_price.lt(&op3.gas_price) {
            confidence = confidence + 5;
        }
        if confidence > 100 {
            100
        } else {
            confidence
        }
    }

    /// Analyses `tx1, tx2, tx3` as front-run, victim and back-run; the alert carries `now`.
    pub fn analyze_sandwich_pattern_at(
        &self,
        tx1: &Transaction,
        tx2: &Transaction,
        tx3: &Transaction,
        now: i64,
    ) -> (r: Result<Option<MEVAlert>, MEVShieldError>)
        ensures
            match sandwich_analysis(self.config, *tx1, *tx2, *tx3) {
                Err(f) => r matches Err(e) && reports_failure(e, f),
                Ok(None) => r matches Ok(None),
                Ok(Some(f)) => r matches Ok(Some(a)) && alert_for(a, f, *tx1, *tx2, *tx3, now),
            },
    {
        if tx1.from != tx3.from {
            return Ok(None);
        }
        if tx1.to != tx2.to || tx2.to != tx3.to {
            return Ok(None);
        }
        let op1 = match self.dex_decoder.decode_operation(tx1) {
            Ok(op) => op,
            Err(e) => return Err(e),
        };
        let op2 = match self.dex_decoder.decode_operation(tx2) {
            Ok(op) => op,
            Err(e) => return Err(e),
        };
        let op3 = match self.dex_decoder.decode_operation(tx3) {
            Ok(op) => op,
            Err(e) => return Err(e),
        };
        proof {
            lemma_decoded_unique(*tx1, op1);
            lemma_decoded_unique(*tx2, op2);
            lemma_decoded_unique(*tx3, op3);
        }
        if !self.is_buy_operation(&op1) || !self.is_sell_operation(&op3) {
            return Ok(None);
        }
        if self.config.same_token_required {
            if op1.token_in != op3.token_out || op1.token_out != op3.token_in {
                return Ok(None);
            }
        }
        let profit = match self.profit_calculator.calculate_sandwich_profit(&op1, &op3) {
            Ok(p) => p,
            Err(e) => return Err(e),
        };
        if profit.lt(&self.config.min_profit_threshold) {
            return Ok(None);
        }
        let confidence = self.calculate_sandwich_confidence(&op1, &op2, &op3, &profit);
        let h1 = tx1.hash();
        let h2 = tx2.hash();
        let h3 = tx3.hash();
        let mut affected: Vec<TxHash> = Vec::new();
        affected.push(h1);
        affected.push(h2);
        affected.push(h3);
        let severity = if confidence > 90 {
            AlertSeverity::Critical
        } else if confidence > 80 {
            AlertSeverity::High
        } else {
            AlertSeverity::Medium
        };
        let alert = MEVAlert {
            pattern_type: MEVPatternType::SandwichAttack,
            confidence,
            affected_transactions: affected,
            evidence: MEVEvidence::Sandwich {
                front_run_tx: h1,
                victim_tx: h2,
                back_run_tx: h3,
                profit_amount: profit,
                token_pair: (op1.token_in, op1.token_out),
            },
            timestamp: now,
            severity,
        };
        Ok(Some(alert))
    }
}

/// Kinds of MEV that a batch analysis names.
#[derive(Debug, Clone, Copy, PartialEq, Eq, Structural)]
pub enum MEVType {
    SandwichAttack,
    FrontRunning,
    Arbitrage,
    Unknown,
}

/// The outcome of analysing a batch for MEV patterns.
#[derive(Debug, Clone)]
pub struct BatchAnalysisResult {
    pub is_mev_free: bool,
    pub detected_patterns: Vec<MEVType>,
}

/// The gas price, in wei, above which the screening service takes a transaction for MEV:
/// 100 gwei.
pub const MEV_GAS_PRICE_THRESHOLD: u128 = 100_000_000_000;

/// Whether the screening service takes a transaction for MEV.
pub open spec fn suspicious(tx: Transaction) -> bool {
    tx.gas_price > MEV_GAS_PRICE_THRESHOLD
}

/// How many transactions of `txs` the screening service takes for MEV.
pub open spec fn suspect_count(txs: Seq<Transaction>) -> nat
    decreases txs.len(),
{
    if txs.len() == 0 {
        0
    } else {
        suspect_count(txs.drop_last()) + if suspicious(txs.last()) { 1nat } else { 0nat }
    }
}

/// The screening of one transaction; the confidence is in percent.
#[derive(Debug, Clone)]
pub struct DetectionResult {
    pub is_mev_detected: bool,
    pub mev_type: Option<MEVType>,
    pub confidence: u32,
    pub details: String,
}

impl DetectionResult {
    /// Whether MEV was detected.
    pub fn is_mev_detected(&self) -> (r: bool)
        ensures
            r == self.is_mev_detected,
    {
        self.is_mev_detected
    }
}

/// The screening service: it takes a transaction paying more than 100 gwei of gas for
/// MEV of an unknown kind.
#[derive(Debug, Clone)]
pub struct DetectionService {
    pub config: DetectionConfig,
}

impl DetectionService {
    /// A screening service with the given configuration.
    pub fn new(config: DetectionConfig) -> (s: Self)
        ensures
            s.config == config,
    {
        DetectionService { config }
    }

    /// Whether the transaction shows an MEV pattern: a gas price above 100 gwei.
    pub fn check_for_mev_patterns(&self, tx: &Transaction) -> (r: Result<bool, MEVShieldError>)
        ensures
            r matches Ok(b) && b == suspicious(*tx),
    {
        Ok(tx.gas_price > MEV_GAS_PRICE_THRESHOLD)
    }

    /// Screens one transaction: a suspicious one is MEV of unknown kind at 85 % confidence,
    /// another is clear at 0 %.
    pub fn analyze_transaction(&self, tx: &Transaction) -> (r: Result<DetectionResult, MEVShieldError>)
        ensures
            r matches Ok(d) && d.is_mev_detected == suspicious(*tx) && d.details@ == "Analysis complete"@ && if suspicious(
                *tx,
            ) {
                d.mev_type == Some(MEVType::Unknown) && d.confidence == 85
            } else {
                d.mev_type is None && d.confidence == 0
            },
    {
        let is_mev = match self.check_for_mev_patterns(tx) {
            Ok(b) => b,
            Err(e) => return Err(e),
        };
        Ok(
            DetectionResult {
                is_mev_detected: is_mev,
                mev_type: if is_mev { Some(MEVType::Unknown) } else { None },
                confidence: if is_mev { 85 } else { 0 },
                details: String::from_str("Analysis complete"),
            },
        )
    }

    /// Screens a batch: one `Unknown` pattern for each suspicious transaction; the batch is
    /// free of MEV when there is none.
    pub fn analyze_transaction_batch(&self, txs: &[Transaction]) -> (r: Result<BatchAnalysisResult, MEVShieldError>)
        ensures
            r matches Ok(b) && b.detected_patterns@.len() == suspect_count(txs@) && (forall|k: int|
                0 <= k < b.detected_patterns@.len() ==> #[trigger] b.detected_patterns@[k] == MEVType::Unknown)
                && b.is_mev_free == (suspect_count(txs@) == 0),
    {
        let mut detected_patterns: Vec<MEVType> = Vec::new();
        let mut i: usize = 0;
        while i < txs.len()
            invariant
                i <= txs@.len(),
                detected_patterns@.len() == suspect_count(txs@.subrange(0, i as int)),
                forall|k: int| 0 <= k < detected_patterns@.len() ==> #[trigger] detected_patterns@[k] == MEVType::Unknown,
            decreases txs@.len() - i,
        {
            assert(txs@.subrange(0, i + 1).drop_last() =~= txs@.subrange(0, i as int));
            match self.analyze_transaction(&txs[i]) {
                Ok(result) => {
                    if result.is_mev_detected {
                        match result.mev_type {
                            Some(t) => detected_patterns.push(t),
                            None => {},
                        }
                    }
                },
                Err(_) => {},
            }
            i = i + 1;
        }
        assert(txs@.subrange(0, txs@.len() as int) =~= txs@);
        let is_mev_free = detected_patterns.len() == 0;
        Ok(BatchAnalysisResult { is_mev_free, detected_patterns })
    }
}



/// A finding together with the indices of its front-run, victim and back-run.
pub type Found = (int, int, int, Finding);

/// The outcome of a scan so far: the findings in order, or the first decoding failure.
pub type ScanState = Result<Seq<Found>, DecodeFailure>;

/// The end (exclusive) of the window after index `i`: `min(i + d + 1, n)`.
pub open spec fn window_end(i: int, d: int, n: int) -> int {
    if i + d + 1 < n {
        i + d + 1
    } else {
        n
    }
}

/// Analyses the triple `(i, j, k)` after the scan state `acc`.
pub open spec fn scan_step(cfg: SandwichDetectionConfig, txs: Seq<Transaction>, acc: ScanState, i: int, j: int, k: int) -> ScanState {
    match acc {
        Err(f) => Err(f),
        Ok(found) => match sandwich_analysis(cfg, txs[i], txs[j], txs[k]) {
            Err(f) => Err(f),
            Ok(None) => Ok(found),
            Ok(Some(x)) => Ok(found.push((i, j, k, x))),
        },
    }
}

/// The scan state after the back-runs `j + 1 .. k` of front-run `i` and victim `j`.
pub open spec fn scan_k(cfg: SandwichDetectionConfig, txs: Seq<Transaction>, acc: ScanState, i: int, j: int, k: int) -> ScanState
    decreases k - j,
{
    if k <= j + 1 {
        acc
    } else {
        scan_step(cfg, txs, scan_k(cfg, txs, acc, i, j, k - 1), i, j, k - 1)
    }
}

/// The scan state after the victims `i + 1 .. j` of front-run `i`, each with its window of
/// back-runs.
pub open spec fn scan_j(cfg: SandwichDetectionConfig, txs: Seq<Transaction>, acc: ScanState, i: int, j: int) -> ScanState
    decreases j - i,
{
    if j <= i + 1 {
        acc
    } else {
        scan_k(
            cfg,
            txs,
            scan_j(cfg, txs, acc, i, j - 1),
            i,
            j - 1,
            window_end(j - 1, cfg.max_distance as int, txs.len() as int),
        )
    }
}

/// The scan state after the front-runs `0 .. i`, each with its window of victims.
pub open spec fn scan_i(cfg: SandwichDetectionConfig, txs: Seq<Transaction>, i: int) -> ScanState
    decreases i,
{
    if i <= 0 {
        Ok(Seq::empty())
    } else {
        scan_j(
            cfg,
            txs,
            scan_i(cfg, txs, i - 1),
            i - 1,
            window_end(i - 1, cfg.max_distance as int, txs.len() as int),
        )
    }
}

/// The whole scan of a batch: every front-run but the last two, every victim within
/// `max_distance` after it, every back-run within `max_distance` after the victim, in
/// that order.
pub open spec fn sandwich_scan(cfg: SandwichDetectionConfig, txs: Seq<Transaction>) -> ScanState {
    scan_i(cfg, txs, if txs.len() >= 2 { txs.len() - 2 } else { 0 })
}

/// The alerts are those of the findings, one for one and in order.
pub open spec fn alerts_match(alerts: Seq<MEVAlert>, found: Seq<Found>, txs: Seq<Transaction>, now: i64) -> bool {
    &&& alerts.len() == found.len()
    &&& forall|m: int|
        0 <= m < alerts.len() ==> #[trigger] alert_for(
            alerts[m],
            found[m].3,
            txs[found[m].0],
            txs[found[m].1],
            txs[found[m].2],
            now,
        )
}

proof fn lemma_scan_k_err(cfg: SandwichDetectionConfig, txs: Seq<Transaction>, acc: ScanState, i: int, j: int, k0: int, k: int)
    requires
        k0 <= k,
        scan_k(cfg, txs, acc, i, j, k0) is Err,
    ensures
        scan_k(cfg, txs, acc, i, j, k) == scan_k(cfg, txs, acc, i, j, k0),
    decreases k - k0,
{
    if k > k0 {
        lemma_scan_k_err(cfg, txs, acc, i, j, k0, k - 1);
    }
}

proof fn lemma_scan_k_from_err(cfg: SandwichDetectionConfig, txs: Seq<Transaction>, acc: ScanState, i: int, j: int, k: int)
    requires
        acc is Err,
    ensures
        scan_k(cfg, txs, acc, i, j, k) == acc,
    decreases k - j,
{
    if k > j + 1 {
        lemma_scan_k_from_err(cfg, txs, acc, i, j, k - 1);
    }
}

proof fn lemma_scan_j_err(cfg: SandwichDetectionConfig, txs: Seq<Transaction>, acc: ScanState, i: int, j0: int, j: int)
    requires
        j0 <= j,
        scan_j(cfg, txs, acc, i, j0) is Err,
    ensures
        scan_j(cfg, txs, acc, i, j) == scan_j(cfg, txs, acc, i, j0),
    decreases j - j0,
{
    if j > j0 {
        lemma_scan_j_err(cfg, txs, acc, i, j0, j - 1);
        if j > i + 1 {
            lemma_scan_k_from_err(
                cfg,
                txs,
                scan_j(cfg, txs, acc, i, j - 1),
                i,
                j - 1,
                window_end(j - 1, cfg.max_distance as int, txs.len() as int),
            );
        }
    }
}

proof fn lemma_scan_j_from_err(cfg: SandwichDetectionConfig, txs: Seq<Transaction>, acc: ScanState, i: int, j: int)
    requires
        acc is Err,
    ensures
        scan_j(cfg, txs, acc, i, j) == acc,
    decreases j - i,
{
    if j > i + 1 {
        lemma_scan_j_from_err(cfg, txs, acc, i, j - 1);
        lemma_scan_k_from_err(
            cfg,
            txs,
            acc,
            i,
            j - 1,
            window_end(j - 1, cfg.max_distance as int, txs.len() as int),
        );
    }
}

proof fn lemma_scan_i_err(cfg: SandwichDetectionConfig, txs: Seq<Transaction>, i0: int, i: int)
    requires
        i0 <= i,
        scan_i(cfg, txs, i0) is Err,
    ensures
        scan_i(cfg, txs, i) == scan_i(cfg, txs, i0),
    decreases i - i0,
{
    if i > i0 {
        lemma_scan_i_err(cfg, txs, i0, i - 1);
        if i > 0 {
            lemma_scan_j_from_err(
                cfg,
                txs,
                scan_i(cfg, txs, i - 1),
                i - 1,
                window_end(i - 1, cfg.max_distance as int, txs.len() as int),
            );
        }
    }
}

/// `min(i + d + 1, n)` without overflow.
fn window_end_exec(i: usize, d: usize, n: usize) -> (r: usize)
    requires
        i < n,
    ensures
        r == window_end(i as int, d as int, n as int),
{
    if d < n - i - 1 {
        i + d + 1
    } else {
        n
    }
}

impl SandwichDetector {
    /// Looks for front-run, victim, back-run triples within `max_distance` of each other
    /// and reports an alert, stamped `now`, for each sandwich; a transaction that cannot be
    /// decoded ends the scan with its error.
    pub fn detect_pattern_at(&self, transactions: &[Transaction], now: i64) -> (r: Result<Vec<MEVAlert>, MEVShieldError>)
        ensures
            match sandwich_scan(self.config, transactions@) {
                Err(f) => r matches Err(e) && reports_failure(e, f),
                Ok(found) => r matches Ok(alerts) && alerts_match(alerts@, found, transactions@, now),
            },
    {
        let ghost cfg = self.config;
        let ghost txs = transactions@;
        let n = transactions.len();
        let d = self.config.max_distance;
        let iend: usize = if n >= 2 { n - 2 } else { 0 };
        let mut alerts: Vec<MEVAlert> = Vec::new();
        let ghost mut found: Seq<Found> = Seq::empty();
        let mut i: usize = 0;
        while i < iend
            invariant
                cfg == self.config,
                txs == transactions@,
                n == txs.len(),
                d == cfg.max_distance,
                iend == (if n >= 2 { n - 2 } else { 0 }),
                i <= iend,
                scan_i(cfg, txs, i as int) == Ok::<Seq<Found>, DecodeFailure>(found),
                alerts_match(alerts@, found, txs, now),
            decreases iend - i,
        {
            let ghost base_i = scan_i(cfg, txs, i as int);
            let je = window_end_exec(i, d, n);
            let mut j: usize = i + 1;
            while j < je
                invariant
                    cfg == self.config,
                    txs == transactions@,
                    n == txs.len(),
                    d == cfg.max_distance,
                    iend == (if n >= 2 { n - 2 } else { 0 }),
                    i < iend,
                    base_i == scan_i(cfg, txs, i as int),
                    je == window_end(i as int, d as int, n as int),
                    i + 1 <= j <= je,
                    scan_j(cfg, txs, base_i, i as int, j as int) == Ok::<Seq<Found>, DecodeFailure>(found),
                    alerts_match(alerts@, found, txs, now),
                decreases je - j,
            {
                let ghost base_j = scan_j(cfg, txs, base_i, i as int, j as int);
                let ke = window_end_exec(j, d, n);
                let mut k: usize = j + 1;
                while k < ke
                    invariant
                        cfg == self.config,
                        txs == transactions@,
                        n == txs.len(),
                        d == cfg.max_distance,
                        iend == (if n >= 2 { n - 2 } else { 0 }),
                        i < iend,
                        i + 1 <= j < je,
                        je == window_end(i as int, d as int, n as int),
                        je <= n,
                        base_i == scan_i(cfg, txs, i as int),
                        base_j == scan_j(cfg, txs, base_i, i as int, j as int),
                        ke == window_end(j as int, d as int, n as int),
                        j + 1 <= k <= ke,
                        scan_k(cfg, txs, base_j, i as int, j as int, k as int) == Ok::<Seq<Found>, DecodeFailure>(found),
                        alerts_match(alerts@, found, txs, now),
                    decreases ke - k,
                {
                    let res = self.analyze_sandwich_pattern_at(&transactions[i], &transactions[j], &transactions[k], now);
                    assert(scan_k(cfg, txs, base_j, i as int, j as int, k + 1) == scan_step(
                        cfg,
                        txs,
                        Ok::<Seq<Found>, DecodeFailure>(found),
                        i as int,
                        j as int,
                        k as int,
                    ));
                    match res {
                        Err(e) => {
                            proof {
                                let st = scan_k(cfg, txs, base_j, i as int, j as int, k + 1);
                                lemma_scan_k_err(cfg, txs, base_j, i as int, j as int, k + 1, ke as int);
                                assert(scan_j(cfg, txs, base_i, i as int, j + 1) == st);
                                lemma_scan_j_err(cfg, txs, base_i, i as int, j + 1, je as int);
                                assert(scan_i(cfg, txs, i + 1) == st);
                                lemma_scan_i_err(cfg, txs, i + 1, iend as int);
                            }
                            return Err(e);
                        },
                        Ok(None) => {},
                        Ok(Some(a)) => {
                            let ghost old_alerts = alerts@;
                            let ghost old_found = found;
                            proof {
                                let x = sandwich_analysis(cfg, txs[i as int], txs[j as int], txs[k as int])->Ok_0->Some_0;
                                found = found.push((i as int, j as int, k as int, x));
                            }
                            alerts.push(a);
                            proof {
                                assert forall|m: int| 0 <= m < alerts@.len() implies #[trigger] alert_for(
                                    alerts@[m],
                                    found[m].3,
                                    txs[found[m].0],
                                    txs[found[m].1],
                                    txs[found[m].2],
                                    now,
                                ) by {
                                    if m < alerts@.len() - 1 {
                                        assert(alerts@[m] == old_alerts[m]);
                                        assert(found[m] == old_found[m]);
                                        assert(alert_for(
                                            old_alerts[m],
                                            old_found[m].3,
                                            txs[old_found[m].0],
                                            txs[old_found[m].1],
                                            txs[old_found[m].2],
                                            now,
                                        ));
                                    }
                                }
                            }
                        },
                    }
                    k = k + 1;
                }
                j = j + 1;
            }
            i = i + 1;
        }
        Ok(alerts)
    }

    /// Sandwich detection over a batch, with alerts stamped at the current time.
    pub fn detect_pattern(&self, transactions: &[Transaction]) -> (r: Result<Vec<MEVAlert>, MEVShieldError>)
        ensures
            match sandwich_scan(self.config, transactions@) {
                Err(f) => r matches Err(e) && reports_failure(e, f),
                Ok(found) => r matches Ok(alerts) && exists|now: i64| alerts_match(alerts@, found, transactions@, now),
            },
    {
        let now = crate::clock::now_millis();
        self.detect_pattern_at(transactions, now)
    }
}


/// Front-running detection settings of a detector.
#[derive(Debug, Clone, Copy, PartialEq, Eq, Structural)]
pub struct FrontrunDetectionConfig {
    /// Milliseconds.
    pub max_time_difference: u64,
    /// Minimum ratio of gas prices, in hundredths of a percent (11000 is 1.1).
    pub min_gas_price_differential: u32,
    /// In percent.
    pub similarity_threshold: u32,
}

/// Arbitrage detection settings of a detector.
#[derive(Debug, Clone, Copy, PartialEq, Eq, Structural)]
pub struct ArbitrageDetectionConfig {
    pub min_profit_threshold: U256,
    pub max_execution_blocks: u64,
    /// In hundredths of a percent (200 is 2%).
    pub price_deviation_threshold: u32,
}

/// Mempool monitor of the front-run detector.
pub struct MempoolMonitor;

/// Pattern analyzer of the front-run detector.
pub struct PatternAnalyzer;

/// Exchange monitor of the arbitrage detector.
pub struct ExchangeMonitor;

/// Gas price analysis of the block analysis engine.
pub struct GasPriceAnalyzer;

/// Timing analysis of the block analysis engine.
pub struct TimingAnalyzer;

/// Value flow analysis of the block analysis engine.
pub struct ValueFlowAnalyzer;

/// Console handler of MEV alerts.
pub struct ConsoleAlertHandler;

impl GasPriceAnalyzer {
    /// A gas price analyzer.
    pub fn new() -> Self {
        GasPriceAnalyzer
    }
}

impl TimingAnalyzer {
    /// A timing analyzer.
    pub fn new() -> Self {
        TimingAnalyzer
    }
}

impl ValueFlowAnalyzer {
    /// A value flow analyzer.
    pub fn new() -> Self {
        ValueFlowAnalyzer
    }
}

/// Block analysis engine.
pub struct BlockAnalysisEngine {
    pub gas_price_analyzer: GasPriceAnalyzer,
    pub timing_analyzer: TimingAnalyzer,
    pub value_flow_analyzer: ValueFlowAnalyzer,
}

impl BlockAnalysisEngine {
    /// An engine with its three analyzers.
    pub fn new() -> Self {
        BlockAnalysisEngine {
            gas_price_analyzer: GasPriceAnalyzer::new(),
            timing_analyzer: TimingAnalyzer::new(),
            value_flow_analyzer: ValueFlowAnalyzer::new(),
        }
    }
}

/// Front-running detector; it reports nothing yet.
pub struct FrontRunDetector {
    pub config: FrontrunDetectionConfig,
    pub mempool_monitor: MempoolMonitor,
    pub pattern_analyzer: PatternAnalyzer,
}

impl FrontRunDetector {
    /// A detector with the given configuration.
    pub fn new(config: FrontrunDetectionConfig) -> (d: Self)
        ensures
            d.config == config,
    {
        FrontRunDetector { config, mempool_monitor: MempoolMonitor, pattern_analyzer: PatternAnalyzer }
    }

    /// Front-running patterns in a batch: none are reported.
    pub fn detect_pattern(&self, transactions: &[Transaction]) -> (r: Result<Vec<MEVAlert>, MEVShieldError>)
        ensures
            r matches Ok(v) && v@.len() == 0,
    {
        Ok(Vec::new())
    }

    /// The pattern this detector looks for.
    pub fn pattern_type(&self) -> (p: MEVPatternType)
        ensures
            p == MEVPatternType::FrontRunning,
    {
        MEVPatternType::FrontRunning
    }

    /// The confidence threshold: 80 percent.
    pub fn confidence_threshold(&self) -> (t: u32)
        ensures
            t == 80,
    {
        80
    }
}

/// Arbitrage detector; it reports nothing yet.
pub struct ArbitrageDetector {
    pub config: ArbitrageDetectionConfig,
    pub exchange_monitor: ExchangeMonitor,
    pub price_oracle: PriceOracle,
}

impl ArbitrageDetector {
    /// A detector with the given configuration.
    pub fn new(config: ArbitrageDetectionConfig) -> (d: Self)
        ensures
            d.config == config,
    {
        ArbitrageDetector { config, exchange_monitor: ExchangeMonitor, price_oracle: PriceOracle::new() }
    }

    /// Arbitrage patterns in a batch: none are reported.
    pub fn detect_pattern(&self, transactions: &[Transaction]) -> (r: Result<Vec<MEVAlert>, MEVShieldError>)
        ensures
            r matches Ok(v) && v@.len() == 0,
    {
        Ok(Vec::new())
    }

    /// The pattern this detector looks for.
    pub fn pattern_type(&self) -> (p: MEVPatternType)
        ensures
            p == MEVPatternType::Arbitrage,
    {
        MEVPatternType::Arbitrage
    }

    /// The confidence threshold: 70 percent.
    pub fn confidence_threshold(&self) -> (t: u32)
        ensures
            t == 70,
    {
        70
    }
}

/// A block of transactions; the time is in milliseconds since the epoch.
#[derive(Debug, Clone)]
pub struct Block {
    pub number: u64,
    pub hash: crate::types::Hash,
    pub parent_hash: crate::types::Hash,
    pub timestamp: i64,
    pub base_fee: u128,
    pub transactions: Vec<Transaction>,
}

/// Two transactions hold the same fields.
pub open spec fn same_tx(a: Transaction, b: Transaction) -> bool {
    &&& a.from.0@ == b.from.0@
    &&& a.to.0@ == b.to.0@
    &&& a.value == b.value
    &&& a.gas == b.gas
    &&& a.gas_price == b.gas_price
    &&& a.gas_used == b.gas_used
    &&& a.nonce == b.nonce
    &&& a.data@ == b.data@
    &&& a.chain_id == b.chain_id
    &&& a.submission_time == b.submission_time
}

/// Two sequences of transactions hold the same transactions.
pub open spec fn same_txs(a: Seq<Transaction>, b: Seq<Transaction>) -> bool {
    a.len() == b.len() && forall|i: int| 0 <= i < a.len() ==> #[trigger] same_tx(a[i], b[i])
}

/// A copy of a transaction.
pub(crate) fn copy_transaction_of(tx: &Transaction) -> (r: Transaction)
    ensures
        same_tx(r, *tx),
{
    let data = tx.data.clone();
    assert(data@ =~= tx.data@);
    Transaction {
        from: tx.from,
        to: tx.to,
        value: tx.value,
        gas: tx.gas,
        gas_price: tx.gas_price,
        gas_used: tx.gas_used,
        nonce: tx.nonce,
        data,
        chain_id: tx.chain_id,
        submission_time: tx.submission_time,
    }
}

/// The last `m` elements of `s`, or all of it where it is shorter.
pub open spec fn keep_last<A>(s: Seq<A>, m: nat) -> Seq<A> {
    if s.len() > m {
        s.subrange(s.len() - m, s.len() as int)
    } else {
        s
    }
}

/// The findings whose confidence reaches `threshold`, in order.
pub open spec fn confident(found: Seq<Found>, threshold: nat) -> Seq<Found>
    decreases found.len(),
{
    if found.len() == 0 {
        found
    } else {
        let rest = confident(found.drop_last(), threshold);
        if found.last().3.0 >= threshold {
            rest.push(found.last())
        } else {
            rest
        }
    }
}

/// The history after the transactions at `start` that are older than `window_ms` at `now`
/// are dropped, then the oldest beyond `max` are.
pub open spec fn pruned(h: Seq<Transaction>, now: i64, window_ms: int, max: nat) -> Seq<Transaction>
    decreases h.len(),
{
    if h.len() > 0 && now - h[0].submission_time > window_ms {
        pruned(h.drop_first(), now, window_ms, max)
    } else {
        keep_last(h, max)
    }
}

/// The anti-MEV detection service: its detectors, the history of transactions seen, and
/// the block analysis engine.
pub struct AntiMEVDetectionService {
    pub config: DetectionConfig,
    pub sandwich_detector: Option<SandwichDetector>,
    pub frontrun_detector: Option<FrontRunDetector>,
    pub arbitrage_detector: Option<ArbitrageDetector>,
    pub transaction_history: Vec<Transaction>,
    pub block_analysis: BlockAnalysisEngine,
}

/// The sandwich settings of a service: within 5 transactions, at least 0.001 ETH of
/// profit, mirrored tokens, 80% confidence.
pub open spec fn service_sandwich_config(c: SandwichDetectionConfig) -> bool {
    c.max_distance == 5 && c.min_profit_threshold.value() == 1_000_000_000_000_000 && c.same_token_required
        && c.confidence_weight == 80
}

impl AntiMEVDetectionService {
    /// A service with the detectors that the configuration enables, an empty history.
    pub fn new(config: DetectionConfig) -> (s: Self)
        ensures
            s.config == config,
            s.sandwich_detector is Some == config.sandwich_detection_enabled,
            s.frontrun_detector is Some == config.frontrun_detection_enabled,
            s.arbitrage_detector is Some == config.arbitrage_detection_enabled,
            s.sandwich_detector matches Some(d) ==> service_sandwich_config(d.config),
            s.frontrun_detector matches Some(d) ==> d.config == (FrontrunDetectionConfig {
                max_time_difference: 30_000,
                min_gas_price_differential: 11000,
                similarity_threshold: 90,
            }),
            s.arbitrage_detector matches Some(d) ==> d.config.min_profit_threshold.value() == 5_000_000_000_000_000
                && d.config.max_execution_blocks == 3 && d.config.price_deviation_threshold == 200,
            s.transaction_history@.len() == 0,
    {
        let sandwich_detector = if config.sandwich_detection_enabled {
            Some(
                SandwichDetector::new(
                    SandwichDetectionConfig {
                        max_distance: 5,
                        min_profit_threshold: U256::from_u128(1_000_000_000_000_000),
                        same_token_required: true,
                        confidence_weight: 80,
                    },
                ),
            )
        } else {
            None
        };
        let frontrun_detector = if config.frontrun_detection_enabled {
            Some(
                FrontRunDetector::new(
                    FrontrunDetectionConfig {
                        max_time_difference: 30_000,
                        min_gas_price_differential: 11000,
                        similarity_threshold: 90,
                    },
                ),
            )
        } else {
            None
        };
        let arbitrage_detector = if config.arbitrage_detection_enabled {
            Some(
                ArbitrageDetector::new(
                    ArbitrageDetectionConfig {
                        min_profit_threshold: U256::from_u128(5_000_000_000_000_000),
                        max_execution_blocks: 3,
                        price_deviation_threshold: 200,
                    },
                ),
            )
        } else {
            None
        };
        AntiMEVDetectionService {
            config,
            sandwich_detector,
            frontrun_detector,
            arbitrage_detector,
            transaction_history: Vec::new(),
            block_analysis: BlockAnalysisEngine::new(),
        }
    }

    /// How many pattern detectors the service runs.
    pub fn detector_count(&self) -> (n: usize)
        ensures
            n == (if self.sandwich_detector is Some { 1nat } else { 0nat }) + (if self.frontrun_detector is Some {
                1nat
            } else {
                0nat
            }) + (if self.arbitrage_detector is Some { 1nat } else { 0nat }),
    {
        let mut n: usize = 0;
        if self.sandwich_detector.is_some() {
            n = n + 1;
        }
        if self.frontrun_detector.is_some() {
            n = n + 1;
        }
        if self.arbitrage_detector.is_some() {
            n = n + 1;
        }
        n
    }

    /// Appends the transactions to the history, dropping the oldest beyond
    /// `max_history_size` after each one.
    pub fn update_history(&mut self, transactions: &[Transaction])
        ensures
            final(self).config == old(self).config,
            final(self).sandwich_detector == old(self).sandwich_detector,
            transactions@.len() == 0 ==> final(self).transaction_history@ == old(self).transaction_history@,
            transactions@.len() > 0 ==> same_txs(
                final(self).transaction_history@,
                keep_last(old(self).transaction_history@ + transactions@, old(self).config.max_history_size as nat),
            ),
    {
        let max = self.config.max_history_size;
        let ghost start = self.transaction_history@;
        let mut i: usize = 0;
        while i < transactions.len()
            invariant
                i <= transactions@.len(),
                max == self.config.max_history_size,
                self.config == old(self).config,
                self.sandwich_detector == old(self).sandwich_detector,
                start == old(self).transaction_history@,
                i == 0 ==> self.transaction_history@ == start,
                i > 0 ==> same_txs(
                    self.transaction_history@,
                    keep_last(start + transactions@.subrange(0, i as int), max as nat),
                ),
            decreases transactions@.len() - i,
        {
            let ghost before = self.transaction_history@;
            let ghost prev = start + transactions@.subrange(0, i as int);
            let ghost all = start + transactions@.subrange(0, i + 1);
            let tx = copy_transaction_of(&transactions[i]);
            self.transaction_history.push(tx);
            proof {
                assert(all =~= prev.push(transactions@[i as int]));
                if i == 0 {
                    assert(prev =~= start);
                    assert(keep_last(all, all.len()) =~= all);
                    assert forall|k: int| 0 <= k < all.len() implies #[trigger] same_tx(
                        self.transaction_history@[k],
                        all[k],
                    ) by {
                        if k < before.len() {
                            assert(self.transaction_history@[k] == before[k]);
                        }
                    }
                } else {
                    let kp = keep_last(prev, max as nat);
                    let n1 = self.transaction_history@.len();
                    assert(keep_last(all, n1) =~= kp.push(transactions@[i as int]));
                    assert forall|k: int| 0 <= k < n1 implies #[trigger] same_tx(
                        self.transaction_history@[k],
                        keep_last(all, n1)[k],
                    ) by {
                        if k < before.len() {
                            assert(self.transaction_history@[k] == before[k]);
                            assert(same_tx(before[k], kp[k]));
                        }
                    }
                }
            }
            while self.transaction_history.len() > max
                invariant
                    max == self.config.max_history_size,
                    self.config == old(self).config,
                    self.sandwich_detector == old(self).sandwich_detector,
                    all == start + transactions@.subrange(0, i + 1),
                    self.transaction_history@.len() <= all.len(),
                    self.transaction_history@.len() < all.len() ==> self.transaction_history@.len() >= max,
                    same_txs(self.transaction_history@, keep_last(all, self.transaction_history@.len())),
                decreases self.transaction_history@.len(),
            {
                let ghost h = self.transaction_history@;
                self.transaction_history.remove(0);
                proof {
                    assert(keep_last(all, (h.len() - 1) as nat) =~= keep_last(all, h.len()).drop_first());
                    assert forall|k: int| 0 <= k < h.len() - 1 implies #[trigger] same_tx(
                        self.transaction_history@[k],
                        keep_last(all, (h.len() - 1) as nat)[k],
                    ) by {
                        assert(self.transaction_history@[k] == h[k + 1]);
                        assert(same_tx(h[k + 1], keep_last(all, h.len())[k + 1]));
                    }
                }
            }
            proof {
                assert(keep_last(all, self.transaction_history@.len()) =~= keep_last(all, max as nat));
            }
            i = i + 1;
        }
        proof {
            if transactions@.len() > 0 {
                assert(transactions@.subrange(0, transactions@.len() as int) =~= transactions@);
            }
        }
    }
}


/// The findings of the sandwich detector, if there is one and its scan decodes every
/// transaction it looks at; none otherwise.
pub open spec fn detector_findings(d: Option<SandwichDetector>, txs: Seq<Transaction>) -> Seq<Found> {
    match d {
        Some(det) => match sandwich_scan(det.config, txs) {
            Ok(found) => found,
            Err(_) => Seq::empty(),
        },
        None => Seq::empty(),
    }
}

/// No finding is above 80% confidence, so no alert is high or critical.
pub open spec fn none_severe(found: Seq<Found>) -> bool {
    forall|i: int| 0 <= i < found.len() ==> #[trigger] found[i].3.0 <= 80
}

impl AntiMEVDetectionService {
    /// Drops from the front of the history the transactions older than the window at
    /// `now`, then the oldest beyond `max_history_size`.
    pub fn prune_history_at(&mut self, now: i64)
        ensures
            final(self).config == old(self).config,
            final(self).transaction_history@ == pruned(
                old(self).transaction_history@,
                now,
                old(self).config.window_size as int * 1000,
                old(self).config.max_history_size as nat,
            ),
    {
        let window_ms: i128 = self.config.window_size as i128 * 1000;
        let max = self.config.max_history_size;
        while self.transaction_history.len() > 0 && now as i128 - self.transaction_history[0].submission_time as i128
            > window_ms
            invariant
                self.config == old(self).config,
                window_ms == old(self).config.window_size as int * 1000,
                max == old(self).config.max_history_size,
                pruned(self.transaction_history@, now, window_ms as int, max as nat) == pruned(
                    old(self).transaction_history@,
                    now,
                    window_ms as int,
                    max as nat,
                ),
            decreases self.transaction_history@.len(),
        {
            let ghost h = self.transaction_history@;
            self.transaction_history.remove(0);
            assert(self.transaction_history@ =~= h.drop_first());
        }
        let ghost after_age = self.transaction_history@;
        assert(pruned(after_age, now, window_ms as int, max as nat) == keep_last(after_age, max as nat));
        while self.transaction_history.len() > max
            invariant
                self.config == old(self).config,
                max == old(self).config.max_history_size,
                self.transaction_history@.len() >= max ==> self.transaction_history@ == keep_last(
                    after_age,
                    self.transaction_history@.len(),
                ),
                self.transaction_history@.len() < max ==> self.transaction_history@ == after_age,
                keep_last(after_age, max as nat) == pruned(
                    old(self).transaction_history@,
                    now,
                    window_ms as int,
                    max as nat,
                ),
                self.transaction_history@.len() <= after_age.len(),
                self.transaction_history@.len() < after_age.len() ==> self.transaction_history@.len() >= max,
            decreases self.transaction_history@.len(),
        {
            let ghost h = self.transaction_history@;
            self.transaction_history.remove(0);
            assert(keep_last(after_age, (h.len() - 1) as nat) =~= keep_last(after_age, h.len()).drop_first());
            assert(self.transaction_history@ =~= h.drop_first());
        }
        assert(keep_last(after_age, max as nat) =~= self.transaction_history@) by {
            if self.transaction_history@.len() < max {
                assert(self.transaction_history@ == after_age);
            } else {
                assert(self.transaction_history@ == keep_last(after_age, self.transaction_history@.len()));
            }
        }
    }

    /// Prunes the history at the current time.
    pub fn prune_history(&mut self)
        ensures
            final(self).config == old(self).config,
            exists|now: i64|
                final(self).transaction_history@ == #[trigger] pruned(
                    old(self).transaction_history@,
                    now,
                    old(self).config.window_size as int * 1000,
                    old(self).config.max_history_size as nat,
                ),
    {
        let now = crate::clock::now_millis();
        self.prune_history_at(now);
    }

    /// Analyses a batch at `now`: records it in the history, runs the detectors (one that
    /// fails is skipped), and keeps the alerts whose confidence reaches the threshold.
    pub fn analyze_transaction_batch_at(&mut self, transactions: &[Transaction], now: i64) -> (r: Result<crate::types::DetectionResult, MEVShieldError>)
        ensures
            final(self).config == old(self).config,
            final(self).sandwich_detector == old(self).sandwich_detector,
            transactions@.len() > 0 ==> same_txs(
                final(self).transaction_history@,
                keep_last(old(self).transaction_history@ + transactions@, old(self).config.max_history_size as nat),
            ),
            r matches Ok(res) && {
                let kept = confident(
                    detector_findings(old(self).sandwich_detector, transactions@),
                    old(self).config.confidence_threshold as nat,
                );
                &&& res.is_mev_free == (kept.len() == 0)
                &&& alerts_match(res.alerts@, kept, transactions@, now)
                &&& res.analysis_time == now
                &&& res.transaction_count == transactions@.len()
            },
    {
        self.update_history(transactions);
        let threshold = self.config.confidence_threshold;
        let mut detected: Vec<MEVAlert> = Vec::new();
        let ghost mut found: Seq<Found> = Seq::empty();
        match &self.sandwich_detector {
            Some(d) => {
                match d.detect_pattern_at(transactions, now) {
                    Ok(v) => {
                        detected = v;
                        proof {
                            found = sandwich_scan(d.config, transactions@)->Ok_0;
                        }
                    },
                    Err(_) => {},
                }
            },
            None => {},
        }
        assert(found == detector_findings(self.sandwich_detector, transactions@));
        let mut kept: Vec<MEVAlert> = Vec::new();
        let total = detected.len();
        let mut i: usize = 0;
        while i < total
            invariant
                total == found.len(),
                i <= total,
                detected@.len() == total - i,
                forall|m: int|
                    0 <= m < detected@.len() ==> #[trigger] alert_for(
                        detected@[m],
                        found[i + m].3,
                        transactions@[found[i + m].0],
                        transactions@[found[i + m].1],
                        transactions@[found[i + m].2],
                        now,
                    ),
                alerts_match(kept@, confident(found.subrange(0, i as int), threshold as nat), transactions@, now),
            decreases total - i,
        {
            let ghost before_detected = detected@;
            let a = detected.remove(0);
            assert(alert_for(
                before_detected[0],
                found[i + 0].3,
                transactions@[found[i + 0].0],
                transactions@[found[i + 0].1],
                transactions@[found[i + 0].2],
                now,
            ));
            proof {
                assert(found.subrange(0, i + 1).drop_last() =~= found.subrange(0, i as int));
                assert forall|m: int| 0 <= m < detected@.len() implies #[trigger] alert_for(
                    detected@[m],
                    found[i + 1 + m].3,
                    transactions@[found[i + 1 + m].0],
                    transactions@[found[i + 1 + m].1],
                    transactions@[found[i + 1 + m].2],
                    now,
                ) by {
                    assert(detected@[m] == before_detected[m + 1]);
                    assert(alert_for(
                        before_detected[m + 1],
                        found[i + (m + 1)].3,
                        transactions@[found[i + (m + 1)].0],
                        transactions@[found[i + (m + 1)].1],
                        transactions@[found[i + (m + 1)].2],
                        now,
                    ));
                }
            }
            if a.confidence >= threshold {
                let ghost old_kept = kept@;
                kept.push(a);
                proof {
                    let c = confident(found.subrange(0, i + 1), threshold as nat);
                    assert forall|m: int| 0 <= m < kept@.len() implies #[trigger] alert_for(
                        kept@[m],
                        c[m].3,
                        transactions@[c[m].0],
                        transactions@[c[m].1],
                        transactions@[c[m].2],
                        now,
                    ) by {
                        if m < old_kept.len() {
                            assert(kept@[m] == old_kept[m]);
                        }
                    }
                }
            }
            i = i + 1;
        }
        assert(found.subrange(0, total as int) =~= found);
        let is_mev_free = kept.len() == 0;
        Ok(crate::types::DetectionResult { is_mev_free, alerts: kept, analysis_time: now, transaction_count: transactions.len() })
    }

    /// Analyses one transaction as a batch of one at `now`; one transaction alone is
    /// never a sandwich.
    pub fn analyze_transaction_at(&mut self, transaction: &Transaction, now: i64) -> (r: Result<crate::types::DetectionResult, MEVShieldError>)
        ensures
            r matches Ok(res) && res.transaction_count == 1 && res.analysis_time == now && res.is_mev_free
                && res.alerts@.len() == 0,
    {
        let mut batch: Vec<Transaction> = Vec::new();
        batch.push(copy_transaction_of(transaction));
        let r = self.analyze_transaction_batch_at(batch.as_slice(), now);
        proof {
            assert(confident(Seq::<Found>::empty(), self.config.confidence_threshold as nat) =~= Seq::<Found>::empty());
        }
        r
    }

    /// Whether a block is free of MEV at `now`: no alert of its transactions is high or
    /// critical.
    pub fn validate_block_mev_free_at(&mut self, block: &Block, now: i64) -> (r: Result<bool, MEVShieldError>)
        ensures
            r matches Ok(b) && b == none_severe(
                confident(
                    detector_findings(old(self).sandwich_detector, block.transactions@),
                    old(self).config.confidence_threshold as nat,
                ),
            ),
    {
        let ghost kept = confident(
            detector_findings(self.sandwich_detector, block.transactions@),
            self.config.confidence_threshold as nat,
        );
        let analysis = match self.analyze_transaction_batch_at(block.transactions.as_slice(), now) {
            Ok(a) => a,
            Err(e) => return Err(e),
        };
        let mut i: usize = 0;
        while i < analysis.alerts.len()
            invariant
                i <= analysis.alerts@.len(),
                alerts_match(analysis.alerts@, kept, block.transactions@, now),
                kept == confident(
                    detector_findings(old(self).sandwich_detector, block.transactions@),
                    old(self).config.confidence_threshold as nat,
                ),
                forall|k: int| 0 <= k < i ==> #[trigger] kept[k].3.0 <= 80,
            decreases analysis.alerts@.len() - i,
        {
            assert(alert_for(
                analysis.alerts@[i as int],
                kept[i as int].3,
                block.transactions@[kept[i as int].0],
                block.transactions@[kept[i as int].1],
                block.transactions@[kept[i as int].2],
                now,
            ));
            let sev = analysis.alerts[i].severity;
            if sev == AlertSeverity::High || sev == AlertSeverity::Critical {
                assert(kept[i as int].3.0 > 80);
                assert(!none_severe(kept));
                return Ok(false);
            }
            i = i + 1;
        }
        Ok(true)
    }
}


impl AntiMEVDetectionService {
    /// Analyses a batch at the current time.
    pub fn analyze_transaction_batch(&mut self, transactions: &[Transaction]) -> (r: Result<crate::types::DetectionResult, MEVShieldError>)
        ensures
            final(self).config == old(self).config,
            r matches Ok(res) && exists|now: i64|
                alerts_match(
                    res.alerts@,
                    confident(
                        detector_findings(old(self).sandwich_detector, transactions@),
                        old(self).config.confidence_threshold as nat,
                    ),
                    transactions@,
                    now,
                ) && #[trigger] res.analysis_time == now,
            r matches Ok(res) && res.transaction_count == transactions@.len() && res.is_mev_free == (confident(
                detector_findings(old(self).sandwich_detector, transactions@),
                old(self).config.confidence_threshold as nat,
            ).len() == 0),
    {
        let now = crate::clock::now_millis();
        self.analyze_transaction_batch_at(transactions, now)
    }

    /// Analyses one transaction at the current time.
    pub fn analyze_transaction(&mut self, transaction: &Transaction) -> (r: Result<crate::types::DetectionResult, MEVShieldError>)
        ensures
            r matches Ok(res) && res.transaction_count == 1 && res.is_mev_free && res.alerts@.len() == 0,
    {
        let now = crate::clock::now_millis();
        self.analyze_transaction_at(transaction, now)
    }

    /// Whether a block is free of MEV, analysed at the current time.
    pub fn validate_block_mev_free(&mut self, block: &Block) -> (r: Result<bool, MEVShieldError>)
        ensures
            r matches Ok(b) && b == none_severe(
                confident(
                    detector_findings(old(self).sandwich_detector, block.transactions@),
                    old(self).config.confidence_threshold as nat,
                ),
            ),
    {
        let now = crate::clock::now_millis();
        self.validate_block_mev_free_at(block, now)
    }
}

} // verus!

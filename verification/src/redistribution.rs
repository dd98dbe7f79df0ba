//! MEV redistribution: what a block yields, the pool it feeds, users' shares by gas used,
//! when a distribution is due, and the records after one. Amounts are wei in `u128` with
//! saturating arithmetic; times are milliseconds since the epoch.
use vstd::prelude::*;
use rand::RngCore;
use crate::config::RedistributionConfig;
use crate::detection::Block;
use crate::types::{Address, DistributionReason, Transaction, TxHash};

verus! {

/// `a + b`, or `u128::MAX` where it does not fit.
pub open spec fn sat_add(a: u128, b: u128) -> u128 {
    if a + b > u128::MAX { u128::MAX } else { (a + b) as u128 }
}

/// `a - b`, or zero below it.
pub open spec fn sat_sub(a: u128, b: u128) -> u128 {
    if a >= b { (a - b) as u128 } else { 0 }
}

/// `a * b`, or `u128::MAX` where it does not fit.
pub open spec fn sat_mul(a: u128, b: u128) -> u128 {
    if a * b > u128::MAX { u128::MAX } else { (a * b) as u128 }
}

/// Saturating addition.
pub fn saturating_add(a: u128, b: u128) -> (r: u128)
    ensures
        r == sat_add(a, b),
{
    if a > u128::MAX - b { u128::MAX } else { a + b }
}

/// Saturating subtraction.
pub fn saturating_sub(a: u128, b: u128) -> (r: u128)
    ensures
        r == sat_sub(a, b),
{
    if a >= b { a - b } else { 0 }
}

/// Saturating multiplication.
pub fn saturating_mul(a: u128, b: u128) -> (r: u128)
    ensures
        r == sat_mul(a, b),
{
    match a.checked_mul(b) {
        Some(p) => p,
        None => u128::MAX,
    }
}

/// The pool of captured MEV.
#[derive(Debug, Clone, Copy, PartialEq, Eq, Structural)]
pub struct MEVPool {
    pub total_captured: u128,
    pub available_for_distribution: u128,
    pub distributed_this_epoch: u128,
    pub reserved_for_gas: u128,
    pub last_distribution: i64,
    pub epoch: u64,
}

/// What a user has contributed and earned.
#[derive(Debug, Clone, Copy)]
pub struct UserContribution {
    pub address: Address,
    pub total_gas_used: u128,
    pub transaction_count: u64,
    pub value_contributed: u128,
    pub last_activity: i64,
    pub accumulated_rewards: u128,
}

/// One payout of MEV.
#[derive(Debug, Clone, Copy)]
pub struct Distribution {
    pub recipient: Address,
    pub amount: u128,
    pub reason: DistributionReason,
    pub epoch: u64,
    pub timestamp: i64,
}

/// The outcome of a distribution round.
#[derive(Debug, Clone)]
pub struct DistributionResult {
    pub distributed: bool,
    pub total_amount: u128,
    pub recipient_count: usize,
    pub distributions: Vec<Distribution>,
}

/// Kinds of MEV for classification.
#[derive(Debug, Clone, Copy, PartialEq, Eq, Structural)]
pub enum MEVType {
    Arbitrage,
    Sandwich,
    FrontRun,
    Liquidation,
    Other,
}

/// MEV data for redistribution.
#[derive(Debug, Clone)]
pub struct MEVData {
    pub extracted_value: u128,
    pub builder_payment: u128,
    pub mev_type: MEVType,
    pub affected_transactions: Vec<TxHash>,
}

/// The result of one payment.
#[derive(Debug, Clone)]
pub struct PaymentResult {
    pub recipient: Address,
    pub amount: u128,
    pub transaction_hash: Option<[u8; 32]>,
    pub success: bool,
    pub error: Option<String>,
}

/// Distribution engine.
pub struct DistributionEngine;

impl DistributionEngine {
    /// An engine.
    pub fn new() -> Self {
        DistributionEngine
    }
}

/// 32 random bytes from `rand::thread_rng().fill_bytes`; nothing is stated of them.
#[verifier::external_body]
fn random_hash() -> (r: [u8; 32]) {
    let mut h = [0u8; 32];
    rand::thread_rng().fill_bytes(&mut h);
    h
}

/// Payment processor.
pub struct PaymentProcessor;

impl PaymentProcessor {
    /// A processor.
    pub fn new() -> Self {
        PaymentProcessor
    }

    /// One successful payment per distribution, with a random transaction hash.
    pub fn process_distributions(&self, distributions: &[Distribution]) -> (r: Vec<PaymentResult>)
        ensures
            r@.len() == distributions@.len(),
            forall|i: int|
                0 <= i < r@.len() ==> (#[trigger] r@[i]).recipient == distributions@[i].recipient && r@[i].amount
                    == distributions@[i].amount && r@[i].success && r@[i].error is None && r@[i].transaction_hash is Some,
    {
        let mut results: Vec<PaymentResult> = Vec::new();
        let mut i: usize = 0;
        while i < distributions.len()
            invariant
                i <= distributions@.len(),
                results@.len() == i,
                forall|k: int|
                    0 <= k < i ==> (#[trigger] results@[k]).recipient == distributions@[k].recipient && results@[k].amount
                        == distributions@[k].amount && results@[k].success && results@[k].error is None
                        && results@[k].transaction_hash is Some,
            decreases distributions@.len() - i,
        {
            let d = &distributions[i];
            results.push(
                PaymentResult {
                    recipient: d.recipient,
                    amount: d.amount,
                    transaction_hash: Some(random_hash()),
                    success: true,
                    error: None,
                },
            );
            i = i + 1;
        }
        results
    }
}

/// The priority fee a transaction pays above the base fee, times its gas used.
pub open spec fn tx_excess(tx: Transaction, base_fee: u128) -> u128 {
    if tx.gas_price > base_fee {
        sat_mul(sat_sub(tx.gas_price, base_fee), tx.gas_used as u128)
    } else {
        0
    }
}

/// The excess fees of the transactions, added up with saturation.
pub open spec fn excess_sum(txs: Seq<Transaction>, base_fee: u128) -> u128
    decreases txs.len(),
{
    if txs.len() == 0 {
        0
    } else {
        sat_add(excess_sum(txs.drop_last(), base_fee), tx_excess(txs.last(), base_fee))
    }
}

/// MEV captured from a block: the excess fees, the detected extraction and the builder
/// payment, added with saturation.
pub open spec fn mev_captured(block: Block, data: MEVData) -> u128 {
    sat_add(sat_add(excess_sum(block.transactions@, block.base_fee), data.extracted_value), data.builder_payment)
}

/// The MEV captured from a block counts every part in full where nothing saturates: on a
/// block whose excess fees, extracted value and builder payment fit together in a `u128`,
/// the captured amount is their sum.
pub proof fn lemma_captured_is_the_sum_of_its_parts(block: Block, data: MEVData)
    requires
        excess_sum(block.transactions@, block.base_fee) + data.extracted_value + data.builder_payment <= u128::MAX,
    ensures
        mev_captured(block, data) == excess_sum(block.transactions@, block.base_fee) + data.extracted_value
            + data.builder_payment,
{
}

/// A block without transactions captures its extracted value plus its builder payment
/// (where they fit in a `u128`).
pub proof fn lemma_empty_block_captures_extraction_and_payment(block: Block, data: MEVData)
    requires
        block.transactions@.len() == 0,
        data.extracted_value + data.builder_payment <= u128::MAX,
    ensures
        mev_captured(block, data) == data.extracted_value + data.builder_payment,
{
}

/// Raising the builder payment, or the extracted value, by `x` with nothing else changed
/// raises the captured amount by `x`, absent saturation.
pub proof fn lemma_capture_grows_with_each_part(block: Block, d1: MEVData, d2: MEVData, x: u128)
    requires
        excess_sum(block.transactions@, block.base_fee) + d2.extracted_value + d2.builder_payment <= u128::MAX,
        (d2.builder_payment == d1.builder_payment + x && d2.extracted_value == d1.extracted_value)
            || (d2.extracted_value == d1.extracted_value + x && d2.builder_payment == d1.builder_payment),
    ensures
        mev_captured(block, d2) == mev_captured(block, d1) + x,
{
}

/// Nothing captured is lost: the captured amount is at least the extracted value and at
/// least the builder payment, whatever saturates.
pub proof fn lemma_capture_covers_each_part(block: Block, data: MEVData)
    ensures
        mev_captured(block, data) >= data.extracted_value,
        mev_captured(block, data) >= data.builder_payment,
{
}

/// MEV captured from a block.
pub fn calculate_mev_captured(block: &Block, mev_data: &MEVData) -> (r: u128)
    ensures
        r == mev_captured(*block, *mev_data),
{
    let mut total: u128 = 0;
    let mut i: usize = 0;
    while i < block.transactions.len()
        invariant
            i <= block.transactions@.len(),
            total == excess_sum(block.transactions@.subrange(0, i as int), block.base_fee),
        decreases block.transactions@.len() - i,
    {
        let tx = &block.transactions[i];
        proof {
            assert(block.transactions@.subrange(0, i + 1).drop_last() =~= block.transactions@.subrange(0, i as int));
        }
        if tx.gas_price > block.base_fee {
            let excess = saturating_sub(tx.gas_price, block.base_fee);
            total = saturating_add(total, saturating_mul(excess, tx.gas_used as u128));
        }
        i = i + 1;
    }
    assert(block.transactions@.subrange(0, block.transactions@.len() as int) =~= block.transactions@);
    total = saturating_add(total, mev_data.extracted_value);
    saturating_add(total, mev_data.builder_payment)
}

/// Gas used by the contributions, added up with saturation.
pub open spec fn gas_total(cs: Seq<UserContribution>) -> u128
    decreases cs.len(),
{
    if cs.len() == 0 {
        0
    } else {
        sat_add(gas_total(cs.drop_last()), cs.last().total_gas_used)
    }
}

/// The share of `available` that a user with `gas` of `total` gas earns.
pub open spec fn gas_share(gas: u128, available: u128, total: u128) -> u128 {
    (sat_mul(gas, available) / total) as u128
}

/// The payouts, in contribution order, of the users whose share is above zero.
pub open spec fn payouts(cs: Seq<UserContribution>, available: u128, total: u128) -> Seq<(Seq<u8>, u128)>
    decreases cs.len(),
{
    if cs.len() == 0 {
        Seq::empty()
    } else {
        let rest = payouts(cs.drop_last(), available, total);
        let s = gas_share(cs.last().total_gas_used, available, total);
        if s > 0 {
            rest.push((cs.last().address.0@, s))
        } else {
            rest
        }
    }
}

/// The amounts of payouts added up (without saturation).
pub open spec fn payout_sum(ps: Seq<(Seq<u8>, u128)>) -> int
    decreases ps.len(),
{
    if ps.len() == 0 {
        0
    } else {
        payout_sum(ps.drop_last()) + ps.last().1
    }
}

/// The gas of the contributions added up (without saturation).
pub open spec fn gas_sum(cs: Seq<UserContribution>) -> int
    decreases cs.len(),
{
    if cs.len() == 0 {
        0
    } else {
        gas_sum(cs.drop_last()) + cs.last().total_gas_used
    }
}

/// Where nothing saturates, the total gas is the plain sum.
proof fn lemma_gas_total_plain(cs: Seq<UserContribution>)
    requires
        gas_sum(cs) <= u128::MAX,
    ensures
        gas_total(cs) == gas_sum(cs),
    decreases cs.len(),
{
    if cs.len() > 0 {
        lemma_gas_sum_nonneg(cs.drop_last());
        lemma_gas_total_plain(cs.drop_last());
    }
}

proof fn lemma_gas_sum_nonneg(cs: Seq<UserContribution>)
    ensures
        gas_sum(cs) >= 0,
    decreases cs.len(),
{
    if cs.len() > 0 {
        lemma_gas_sum_nonneg(cs.drop_last());
    }
}

/// Shares never pay out more than is available: where no gas product saturates and the
/// gas adds up within `u128`, the payouts sum to at most `available` times the part of the
/// total gas the users hold.
proof fn lemma_payouts_bounded(cs: Seq<UserContribution>, available: u128, total: u128)
    requires
        total > 0,
        forall|i: int| 0 <= i < cs.len() ==> (#[trigger] cs[i]).total_gas_used * available <= u128::MAX,
    ensures
        payout_sum(payouts(cs, available, total)) * total <= gas_sum(cs) * available,
    decreases cs.len(),
{
    if cs.len() > 0 {
        let rest = cs.drop_last();
        assert forall|i: int| 0 <= i < rest.len() implies (#[trigger] rest[i]).total_gas_used * available <= u128::MAX by {
            assert(rest[i] == cs[i]);
        }
        lemma_payouts_bounded(rest, available, total);
        let g = cs.last().total_gas_used;
        assert(g * available <= u128::MAX) by {
            assert(cs.last() == cs[cs.len() - 1]);
        }
        let s = gas_share(g, available, total);
        assert(sat_mul(g, available) == g * available);
        assert(s * total <= g * available) by (nonlinear_arith)
            requires
                s == (g * available) / (total as int),
                total > 0,
                g * available >= 0,
        ;
        let pr = payout_sum(payouts(rest, available, total));
        let gr = gas_sum(rest);
        if s > 0 {
            assert(payouts(cs, available, total) == payouts(rest, available, total).push((cs.last().address.0@, s)));
            assert(payouts(cs, available, total).drop_last() =~= payouts(rest, available, total));
            assert((pr + s) * total <= (gr + g) * available) by (nonlinear_arith)
                requires
                    pr * total <= gr * available,
                    s * total <= g * available,
            ;
        } else {
            assert(pr * total <= (gr + g) * available) by (nonlinear_arith)
                requires
                    pr * total <= gr * available,
                    g >= 0,
                    available >= 0,
            ;
        }
    }
}

/// The law of distribution: with the total gas equal to the users' gas (nothing
/// saturates), the payouts never exceed what is available for distribution.
pub proof fn lemma_distribution_within_available(cs: Seq<UserContribution>, available: u128)
    requires
        gas_sum(cs) <= u128::MAX,
        gas_sum(cs) > 0,
        forall|i: int| 0 <= i < cs.len() ==> (#[trigger] cs[i]).total_gas_used * available <= u128::MAX,
    ensures
        payout_sum(payouts(cs, available, gas_total(cs))) <= available,
{
    lemma_gas_total_plain(cs);
    let t = gas_total(cs);
    lemma_payouts_bounded(cs, available, t);
    let p = payout_sum(payouts(cs, available, t));
    assert(p <= available) by (nonlinear_arith)
        requires
            p * t <= t * available,
            t > 0,
    ;
}

/// A distribution is due when the distribution period has passed since the last one
/// (whole seconds, as `num_seconds() as u64` counts them, so a last distribution in the
/// future counts as long ago), or when the pool holds ten times the minimum.
pub open spec fn distribution_due(pool: MEVPool, now: i64, frequency_secs: u64, minimum: u128) -> bool {
    let secs = elapsed_whole_secs(now, pool.last_distribution) as u64;
    secs >= frequency_secs || pool.available_for_distribution >= sat_mul(minimum, 10)
}

/// A pool holding at least ten times the minimum distribution is due for distribution at
/// any time, however recently it was last distributed.
pub proof fn lemma_full_pool_is_due(pool: MEVPool, now: i64, frequency_secs: u64, minimum: u128)
    requires
        pool.available_for_distribution >= 10 * minimum,
    ensures
        distribution_due(pool, now, frequency_secs, minimum),
{
}

/// A pool whose last distribution lies at least the distribution period in the past is
/// due for distribution, whatever it holds.
pub proof fn lemma_period_elapsed_is_due(pool: MEVPool, now: i64, frequency_secs: u64, minimum: u128)
    requires
        now as int - pool.last_distribution as int >= frequency_secs as int * 1000,
        now as int - pool.last_distribution as int <= u64::MAX as int,
    ensures
        distribution_due(pool, now, frequency_secs, minimum),
{
}

/// Whole seconds from `then` to `now`, truncated towards zero.
pub open spec fn elapsed_whole_secs(now: i64, then: i64) -> int {
    let d = now as int - then as int;
    if d >= 0 {
        d / 1000
    } else {
        -((-d) / 1000)
    }
}

/// The value of the decimal digits `s`, if they are all digits.
pub open spec fn decimal_value(s: Seq<char>) -> Option<nat>
    decreases s.len(),
{
    if s.len() == 0 {
        Some(0)
    } else {
        match decimal_value(s.drop_last()) {
            Some(v) => if '0' <= s.last() <= '9' {
                Some((v * 10 + (s.last() as int - 48)) as nat)
            } else {
                None
            },
            None => None,
        }
    }
}

/// An amount of wei written in decimal: nothing for an empty text, a non-digit or a value
/// above `u128::MAX`.
pub fn parse_wei(s: &str) -> (r: Option<u128>)
    ensures
        r matches Some(v) ==> s@.len() > 0 && decimal_value(s@) == Some(v as nat),
        r is None ==> s@.len() == 0 || decimal_value(s@) is None || decimal_value(s@).unwrap() > u128::MAX,
{
    let chars = crate::text::chars_of(s);
    if chars.len() == 0 {
        return None;
    }
    let mut v: u128 = 0;
    let mut i: usize = 0;
    while i < chars.len()
        invariant
            chars@ == s@,
            i <= chars@.len(),
            decimal_value(chars@.subrange(0, i as int)) == Some(v as nat),
        decreases chars@.len() - i,
    {
        let c = chars[i];
        proof {
            assert(chars@.subrange(0, i + 1).drop_last() =~= chars@.subrange(0, i as int));
        }
        if !('0' <= c && c <= '9') {
            proof {
                lemma_decimal_none_extends(chars@, (i + 1) as int);
            }
            return None;
        }
        let d = crate::text::char_code(c) - 48;
        if v > (u128::MAX - d as u128) / 10 {
            proof {
                lemma_decimal_grows(chars@, (i + 1) as int);
            }
            return None;
        }
        v = v * 10 + d as u128;
        i = i + 1;
    }
    assert(chars@.subrange(0, chars@.len() as int) =~= chars@);
    Some(v)
}

/// Once a prefix has a non-digit, the whole text has no value.
pub(crate) proof fn lemma_decimal_none_extends(s: Seq<char>, i: int)
    requires
        0 <= i <= s.len(),
        decimal_value(s.subrange(0, i)) is None,
    ensures
        decimal_value(s) is None,
    decreases s.len() - i,
{
    if i < s.len() {
        assert(s.subrange(0, i + 1).drop_last() =~= s.subrange(0, i));
        lemma_decimal_none_extends(s, i + 1);
    } else {
        assert(s.subrange(0, i) =~= s);
    }
}

/// The value of a prefix bounds the value of the whole text from below.
proof fn lemma_decimal_grows(s: Seq<char>, i: int)
    requires
        0 <= i <= s.len(),
        decimal_value(s.subrange(0, i)) matches Some(v) && v > u128::MAX,
    ensures
        decimal_value(s) is None || decimal_value(s).unwrap() > u128::MAX,
    decreases s.len() - i,
{
    if i < s.len() {
        assert(s.subrange(0, i + 1).drop_last() =~= s.subrange(0, i));
        if decimal_value(s.subrange(0, i + 1)) is None {
            lemma_decimal_none_extends(s, i + 1);
        } else {
            lemma_decimal_grows(s, i + 1);
        }
    } else {
        assert(s.subrange(0, i) =~= s);
    }
}


/// `amount * pct / 100`, or `u128::MAX` where it does not fit.
pub open spec fn percent_of(amount: u128, pct: u64) -> u128 {
    if amount * pct / 100 > u128::MAX { u128::MAX } else { (amount * pct / 100) as u128 }
}

/// `amount * pct / 100` without an intermediate overflow, saturating.
pub fn percent(amount: u128, pct: u64) -> (r: u128)
    ensures
        r == percent_of(amount, pct),
{
    let q = amount / 100;
    let rem = amount % 100;
    let p = pct as u128;
    proof {
        assert(amount == q * 100 + rem);
        assert(rem * p / 100 <= p) by (nonlinear_arith)
            requires
                rem < 100,
        ;
        assert((q * 100 + rem) * p / 100 == q * p + rem * p / 100) by (nonlinear_arith)
            requires
                rem < 100,
                q >= 0,
                p >= 0,
        ;
    }
    match q.checked_mul(p) {
        Some(qp) => {
            let tail = rem * p / 100;
            if qp > u128::MAX - tail {
                u128::MAX
            } else {
                qp + tail
            }
        },
        None => {
            proof {
                assert(q * p + rem * p / 100 >= q * p);
            }
            u128::MAX
        },
    }
}

/// A fresh contribution record for `address` at `now`.
pub open spec fn fresh_contribution(address: Address, now: i64) -> UserContribution {
    UserContribution {
        address,
        total_gas_used: 0,
        transaction_count: 0,
        value_contributed: 0,
        last_activity: now,
        accumulated_rewards: 0,
    }
}

/// A contribution after one more transaction at `now`.
pub open spec fn bumped(c: UserContribution, tx: Transaction, now: i64) -> UserContribution {
    UserContribution {
        total_gas_used: sat_add(c.total_gas_used, tx.gas_used as u128),
        transaction_count: if c.transaction_count < u64::MAX { (c.transaction_count + 1) as u64 } else { u64::MAX },
        value_contributed: sat_add(c.value_contributed, tx.value),
        last_activity: now,
        ..c
    }
}

/// The index of the record of the address with bytes `a`.
pub open spec fn record_of(cs: Seq<UserContribution>, a: Seq<u8>) -> Option<int> {
    if exists|i: int| 0 <= i < cs.len() && (#[trigger] cs[i]).address.0@ == a {
        Some(choose|i: int| 0 <= i < cs.len() && (#[trigger] cs[i]).address.0@ == a)
    } else {
        None
    }
}

/// Each address has one record at most.
pub open spec fn addresses_unique(cs: Seq<UserContribution>) -> bool {
    forall|i: int, j: int| 0 <= i < j < cs.len() ==> cs[i].address.0@ != cs[j].address.0@
}

/// The records after the transactions `txs` at `now`: each bumps its sender's record,
/// made fresh where there is none.
pub open spec fn contributions_after(cs: Seq<UserContribution>, txs: Seq<Transaction>, now: i64) -> Seq<UserContribution>
    decreases txs.len(),
{
    if txs.len() == 0 {
        cs
    } else {
        let before = contributions_after(cs, txs.drop_last(), now);
        let tx = txs.last();
        match record_of(before, tx.from.0@) {
            Some(i) => before.update(i, bumped(before[i], tx, now)),
            None => before.push(bumped(fresh_contribution(tx.from, now), tx, now)),
        }
    }
}

/// The amounts of distributions added up with saturation.
pub open spec fn amount_total(ds: Seq<Distribution>) -> u128
    decreases ds.len(),
{
    if ds.len() == 0 {
        0
    } else {
        sat_add(amount_total(ds.drop_last()), ds.last().amount)
    }
}

/// The records after the payouts `ds`: a paid user's rewards grow and the counters of the
/// epoch restart.
pub open spec fn rewarded(cs: Seq<UserContribution>, ds: Seq<Distribution>) -> Seq<UserContribution>
    decreases ds.len(),
{
    if ds.len() == 0 {
        cs
    } else {
        let before = rewarded(cs, ds.drop_last());
        let d = ds.last();
        match record_of(before, d.recipient.0@) {
            Some(i) => before.update(
                i,
                UserContribution {
                    accumulated_rewards: sat_add(before[i].accumulated_rewards, d.amount),
                    total_gas_used: 0,
                    transaction_count: 0,
                    value_contributed: 0,
                    ..before[i]
                },
            ),
            None => before,
        }
    }
}

/// The distributions of an epoch at `now`: the payouts as gas contributions.
pub open spec fn distributions_match(ds: Seq<Distribution>, ps: Seq<(Seq<u8>, u128)>, epoch: u64, now: i64) -> bool {
    &&& ds.len() == ps.len()
    &&& forall|k: int|
        0 <= k < ds.len() ==> (#[trigger] ds[k]).recipient.0@ == ps[k].0 && ds[k].amount == ps[k].1 && ds[k].reason
            == DistributionReason::GasContribution && ds[k].epoch == epoch && ds[k].timestamp == now
}

/// The record index of `a` in `cs`, which has unique addresses.
fn find_record(cs: &Vec<UserContribution>, a: &Address) -> (r: Option<usize>)
    requires
        addresses_unique(cs@),
    ensures
        r matches Some(i) ==> i < cs@.len() && record_of(cs@, a.0@) == Some(i as int),
        r is None ==> record_of(cs@, a.0@) is None,
{
    let mut i: usize = 0;
    while i < cs.len()
        invariant
            i <= cs@.len(),
            addresses_unique(cs@),
            forall|k: int| 0 <= k < i ==> cs@[k].address.0@ != a.0@,
        decreases cs@.len() - i,
    {
        if cs[i].address == *a {
            proof {
                let c = choose|j: int| 0 <= j < cs@.len() && (#[trigger] cs@[j]).address.0@ == a.0@;
                if c != i {
                    if c < i {
                        assert(cs@[c].address.0@ != a.0@);
                    } else {
                        assert(cs@[i as int].address.0@ != cs@[c].address.0@);
                    }
                }
            }
            return Some(i);
        }
        i = i + 1;
    }
    None
}

/// The redistribution service: its configuration, the minimum it distributes (parsed
/// from the configuration), the pool and the users' records.
pub struct MEVRedistributionService {
    config: RedistributionConfig,
    minimum_distribution: u128,
    mev_pool: MEVPool,
    user_contributions: Vec<UserContribution>,
    distribution_engine: DistributionEngine,
    payment_processor: PaymentProcessor,
}

impl MEVRedistributionService {
    /// The users' records.
    pub closed spec fn contributions(&self) -> Seq<UserContribution> {
        self.user_contributions@
    }

    /// The pool.
    pub closed spec fn pool(&self) -> MEVPool {
        self.mev_pool
    }

    /// The current state of the pool.
    pub fn pool_stats(&self) -> (p: MEVPool)
        ensures
            p == self.pool(),
    {
        self.mev_pool
    }

    /// The configuration is that of `other`.
    pub closed spec fn configuration_same(&self, other: &Self) -> bool {
        self.frequency() == other.frequency() && self.shares() == other.shares()
    }

    /// The smallest amount distributed.
    pub closed spec fn minimum(&self) -> u128 {
        self.minimum_distribution
    }

    /// The distribution period in seconds.
    pub closed spec fn frequency(&self) -> u64 {
        self.config.distribution_frequency
    }

    /// The shares of the captured MEV, in whole percent: reserved for gas, and for users.
    pub closed spec fn shares(&self) -> (u64, u64) {
        ((self.config.gas_reserve_percentage / 100) as u64, (self.config.redistribution_percentage / 100) as u64)
    }

    /// Records have unique addresses.
    pub closed spec fn wf(&self) -> bool {
        addresses_unique(self.user_contributions@)
    }

    /// A service with an empty pool last distributed at `now`; a minimum that is not a
    /// decimal amount of wei is a configuration error.
    pub fn new_at(config: RedistributionConfig, now: i64) -> (r: Result<Self, crate::error::MEVShieldError>)
        ensures
            match decimal_value(config.minimum_distribution_wei@) {
                Some(m) => if config.minimum_distribution_wei@.len() > 0 && m <= u128::MAX {
                    r matches Ok(s) && s.wf() && s.contributions().len() == 0 && s.minimum() == m
                        && s.pool() == (MEVPool {
                        total_captured: 0,
                        available_for_distribution: 0,
                        distributed_this_epoch: 0,
                        reserved_for_gas: 0,
                        last_distribution: now,
                        epoch: 0,
                    })
                } else {
                    r is Err
                },
                None => r is Err,
            },
    {
        let minimum = match parse_wei(config.minimum_distribution_wei.as_str()) {
            Some(m) => m,
            None => return Err(crate::error::MEVShieldError::Configuration(String::from_str("Invalid minimum distribution amount"))),
        };
        Ok(
            MEVRedistributionService {
                config,
                minimum_distribution: minimum,
                mev_pool: MEVPool {
                    total_captured: 0,
                    available_for_distribution: 0,
                    distributed_this_epoch: 0,
                    reserved_for_gas: 0,
                    last_distribution: now,
                    epoch: 0,
                },
                user_contributions: Vec::new(),
                distribution_engine: DistributionEngine::new(),
                payment_processor: PaymentProcessor::new(),
            },
        )
    }

    /// Records each transaction of the block at `now` against its sender.
    pub fn update_user_contributions_at(&mut self, block: &Block, now: i64)
        requires
            old(self).wf(),
        ensures
            final(self).wf(),
            final(self).contributions() == contributions_after(old(self).contributions(), block.transactions@, now),
            final(self).pool() == old(self).pool(),
            final(self).configuration_same(old(self)),
            final(self).minimum() == old(self).minimum(),
    {
        let mut i: usize = 0;
        while i < block.transactions.len()
            invariant
                i <= block.transactions@.len(),
                addresses_unique(self.user_contributions@),
                self.user_contributions@ == contributions_after(
                    old(self).contributions(),
                    block.transactions@.subrange(0, i as int),
                    now,
                ),
                self.mev_pool == old(self).mev_pool,
                self.config.distribution_frequency == old(self).config.distribution_frequency,
                self.config.gas_reserve_percentage == old(self).config.gas_reserve_percentage,
                self.config.redistribution_percentage == old(self).config.redistribution_percentage,
                self.minimum_distribution == old(self).minimum_distribution,
            decreases block.transactions@.len() - i,
        {
            let tx = &block.transactions[i];
            proof {
                assert(block.transactions@.subrange(0, i + 1).drop_last() =~= block.transactions@.subrange(0, i as int));
            }
            let ghost before = self.user_contributions@;
            let idx = match find_record(&self.user_contributions, &tx.from) {
                Some(k) => k,
                None => {
                    self.user_contributions.push(
                        UserContribution {
                            address: tx.from,
                            total_gas_used: 0,
                            transaction_count: 0,
                            value_contributed: 0,
                            last_activity: now,
                            accumulated_rewards: 0,
                        },
                    );
                    proof {
                        assert forall|a: int, b: int| 0 <= a < b < self.user_contributions@.len() implies self.user_contributions@[a].address.0@
                            != self.user_contributions@[b].address.0@ by {
                            if b == before.len() {
                                assert(self.user_contributions@[a] == before[a]);
                                assert(before[a].address.0@ != tx.from.0@);
                            } else {
                                assert(self.user_contributions@[a] == before[a]);
                                assert(self.user_contributions@[b] == before[b]);
                            }
                        }
                    }
                    self.user_contributions.len() - 1
                },
            };
            let c = self.user_contributions[idx];
            let count = if c.transaction_count < u64::MAX { c.transaction_count + 1 } else { u64::MAX };
            let updated = UserContribution {
                address: c.address,
                total_gas_used: saturating_add(c.total_gas_used, tx.gas_used as u128),
                transaction_count: count,
                value_contributed: saturating_add(c.value_contributed, tx.value),
                last_activity: now,
                accumulated_rewards: c.accumulated_rewards,
            };
            let ghost mid = self.user_contributions@;
            self.user_contributions.set(idx, updated);
            proof {
                assert forall|a: int, b: int| 0 <= a < b < self.user_contributions@.len() implies self.user_contributions@[a].address.0@
                    != self.user_contributions@[b].address.0@ by {
                    assert(self.user_contributions@[a].address == mid[a].address);
                    assert(self.user_contributions@[b].address == mid[b].address);
                }
            }
            i = i + 1;
        }
        assert(block.transactions@.subrange(0, block.transactions@.len() as int) =~= block.transactions@);
    }
}


/// The pool after capturing `captured` with the given whole percentages: everything adds
/// to the total, the gas share of it to the reserve, and the users' share of it (80 % by
/// default) to what is available for distribution.
pub open spec fn pool_after_capture(pool: MEVPool, captured: u128, gas_pct: u64, user_pct: u64) -> MEVPool {
    let reserve = percent_of(captured, gas_pct);
    let user_share = percent_of(captured, user_pct);
    MEVPool {
        total_captured: sat_add(pool.total_captured, captured),
        available_for_distribution: sat_add(pool.available_for_distribution, user_share),
        reserved_for_gas: sat_add(pool.reserved_for_gas, reserve),
        ..pool
    }
}

impl MEVRedistributionService {
    /// Captures the MEV of a block at `now`: the pool grows by it and the block's
    /// transactions count towards their senders; a block that yields nothing changes
    /// nothing.
    pub fn capture_mev_from_block_at(&mut self, block: &Block, mev_data: &MEVData, now: i64) -> (r: u128)
        requires
            old(self).wf(),
        ensures
            final(self).wf(),
            r == mev_captured(*block, *mev_data),
            final(self).configuration_same(old(self)),
            final(self).minimum() == old(self).minimum(),
            r == 0 ==> final(self).pool() == old(self).pool() && final(self).contributions() == old(self).contributions(),
            r > 0 ==> final(self).pool() == pool_after_capture(old(self).pool(), r, old(self).shares().0, old(self).shares().1)
                && final(self).contributions() == contributions_after(old(self).contributions(), block.transactions@, now),
    {
        let captured = calculate_mev_captured(block, mev_data);
        if captured > 0 {
            let gas_pct: u64 = (self.config.gas_reserve_percentage / 100) as u64;
            let user_pct: u64 = (self.config.redistribution_percentage / 100) as u64;
            let reserve = percent(captured, gas_pct);
            let user_share = percent(captured, user_pct);
            self.mev_pool.total_captured = saturating_add(self.mev_pool.total_captured, captured);
            self.mev_pool.available_for_distribution = saturating_add(self.mev_pool.available_for_distribution, user_share);
            self.mev_pool.reserved_for_gas = saturating_add(self.mev_pool.reserved_for_gas, reserve);
            self.update_user_contributions_at(block, now);
        }
        captured
    }

    /// Whether a distribution is due at `now`.
    pub fn should_distribute_at(&self, pool: &MEVPool, now: i64) -> (r: bool)
        ensures
            r == distribution_due(*pool, now, self.frequency(), self.minimum()),
    {
        let d: i128 = now as i128 - pool.last_distribution as i128;
        let secs: i128 = if d >= 0 { d / 1000 } else { -((-d) / 1000) };
        let elapsed: u64 = secs as u64;
        if elapsed >= self.config.distribution_frequency {
            return true;
        }
        let max_pool_size = saturating_mul(self.minimum_distribution, 10);
        pool.available_for_distribution >= max_pool_size
    }

    /// The distributions of the current epoch at `now`: each user's share of what is
    /// available, by gas used, where it is above zero; none where no gas was used.
    pub fn calculate_distributions_at(&self, now: i64) -> (r: Vec<Distribution>)
        ensures
            gas_total(self.contributions()) == 0 ==> r@.len() == 0,
            gas_total(self.contributions()) > 0 ==> distributions_match(
                r@,
                payouts(self.contributions(), self.pool().available_for_distribution, gas_total(self.contributions())),
                self.pool().epoch,
                now,
            ),
    {
        let cs = &self.user_contributions;
        let mut total: u128 = 0;
        let mut i: usize = 0;
        while i < cs.len()
            invariant
                cs == &self.user_contributions,
                i <= cs@.len(),
                total == gas_total(cs@.subrange(0, i as int)),
            decreases cs@.len() - i,
        {
            proof {
                assert(cs@.subrange(0, i + 1).drop_last() =~= cs@.subrange(0, i as int));
            }
            total = saturating_add(total, cs[i].total_gas_used);
            i = i + 1;
        }
        assert(cs@.subrange(0, cs@.len() as int) =~= cs@);
        let mut out: Vec<Distribution> = Vec::new();
        if total == 0 {
            return out;
        }
        let available = self.mev_pool.available_for_distribution;
        let epoch = self.mev_pool.epoch;
        let mut k: usize = 0;
        while k < cs.len()
            invariant
                cs == &self.user_contributions,
                k <= cs@.len(),
                total == gas_total(cs@),
                total > 0,
                available == self.mev_pool.available_for_distribution,
                epoch == self.mev_pool.epoch,
                distributions_match(out@, payouts(cs@.subrange(0, k as int), available, total), epoch, now),
            decreases cs@.len() - k,
        {
            proof {
                assert(cs@.subrange(0, k + 1).drop_last() =~= cs@.subrange(0, k as int));
                assert(cs@.subrange(0, k + 1).last() == cs@[k as int]);
            }
            let share = saturating_mul(cs[k].total_gas_used, available) / total;
            if share > 0 {
                let ghost before = out@;
                out.push(
                    Distribution {
                        recipient: cs[k].address,
                        amount: share,
                        reason: DistributionReason::GasContribution,
                        epoch,
                        timestamp: now,
                    },
                );
                proof {
                    let ps = payouts(cs@.subrange(0, k + 1), available, total);
                    assert forall|m: int| 0 <= m < out@.len() implies (#[trigger] out@[m]).recipient.0@ == ps[m].0
                        && out@[m].amount == ps[m].1 && out@[m].reason == DistributionReason::GasContribution
                        && out@[m].epoch == epoch && out@[m].timestamp == now by {
                        if m < before.len() {
                            assert(out@[m] == before[m]);
                        }
                    }
                }
            }
            k = k + 1;
        }
        assert(cs@.subrange(0, cs@.len() as int) =~= cs@);
        out
    }

    /// The records after the distributions `distributions` are paid at `now`: the pool
    /// gives out their total, the epoch advances, the paid users' rewards grow and their
    /// epoch counters restart.
    pub fn update_after_distribution_at(&mut self, distributions: &[Distribution], payment_results: &[PaymentResult], now: i64)
        requires
            old(self).wf(),
            old(self).pool().epoch < u64::MAX,
        ensures
            final(self).wf(),
            final(self).configuration_same(old(self)),
            final(self).minimum() == old(self).minimum(),
            final(self).pool() == (MEVPool {
                available_for_distribution: sat_sub(
                    old(self).pool().available_for_distribution,
                    amount_total(distributions@),
                ),
                distributed_this_epoch: sat_add(old(self).pool().distributed_this_epoch, amount_total(distributions@)),
                last_distribution: now,
                epoch: (old(self).pool().epoch + 1) as u64,
                ..old(self).pool()
            }),
            final(self).contributions() == rewarded(old(self).contributions(), distributions@),
    {
        let mut total: u128 = 0;
        let mut i: usize = 0;
        while i < distributions.len()
            invariant
                i <= distributions@.len(),
                total == amount_total(distributions@.subrange(0, i as int)),
            decreases distributions@.len() - i,
        {
            proof {
                assert(distributions@.subrange(0, i + 1).drop_last() =~= distributions@.subrange(0, i as int));
            }
            total = saturating_add(total, distributions[i].amount);
            i = i + 1;
        }
        assert(distributions@.subrange(0, distributions@.len() as int) =~= distributions@);
        self.mev_pool.available_for_distribution = saturating_sub(self.mev_pool.available_for_distribution, total);
        self.mev_pool.distributed_this_epoch = saturating_add(self.mev_pool.distributed_this_epoch, total);
        self.mev_pool.last_distribution = now;
        self.mev_pool.epoch = self.mev_pool.epoch + 1;
        let ghost pool1 = self.mev_pool;
        let mut k: usize = 0;
        while k < distributions.len()
            invariant
                k <= distributions@.len(),
                addresses_unique(self.user_contributions@),
                self.user_contributions@ == rewarded(old(self).contributions(), distributions@.subrange(0, k as int)),
                self.mev_pool == pool1,
                self.config.distribution_frequency == old(self).config.distribution_frequency,
                self.config.gas_reserve_percentage == old(self).config.gas_reserve_percentage,
                self.config.redistribution_percentage == old(self).config.redistribution_percentage,
                self.minimum_distribution == old(self).minimum_distribution,
            decreases distributions@.len() - k,
        {
            proof {
                assert(distributions@.subrange(0, k + 1).drop_last() =~= distributions@.subrange(0, k as int));
            }
            let d = &distributions[k];
            match find_record(&self.user_contributions, &d.recipient) {
                Some(j) => {
                    let c = self.user_contributions[j];
                    let updated = UserContribution {
                        address: c.address,
                        total_gas_used: 0,
                        transaction_count: 0,
                        value_contributed: 0,
                        last_activity: c.last_activity,
                        accumulated_rewards: saturating_add(c.accumulated_rewards, d.amount),
                    };
                    let ghost mid = self.user_contributions@;
                    self.user_contributions.set(j, updated);
                    proof {
                        assert forall|a: int, b: int| 0 <= a < b < self.user_contributions@.len() implies self.user_contributions@[a].address.0@
                            != self.user_contributions@[b].address.0@ by {
                            assert(self.user_contributions@[a].address == mid[a].address);
                            assert(self.user_contributions@[b].address == mid[b].address);
                        }
                    }
                },
                None => {},
            }
            k = k + 1;
        }
        assert(distributions@.subrange(0, distributions@.len() as int) =~= distributions@);
    }

    /// A distribution round at `now`: nothing when none is due or too little is available;
    /// else the shares are paid and recorded.
    pub fn distribute_mev_at(&mut self, now: i64) -> (r: Result<DistributionResult, crate::error::MEVShieldError>)
        requires
            old(self).wf(),
            old(self).pool().epoch < u64::MAX,
        ensures
            final(self).wf(),
            r matches Ok(res) && if !distribution_due(old(self).pool(), now, old(self).frequency(), old(self).minimum())
                || old(self).pool().available_for_distribution < old(self).minimum() {
                !res.distributed && res.total_amount == 0 && res.recipient_count == 0 && res.distributions@.len() == 0
                    && final(self).pool() == old(self).pool() && final(self).contributions() == old(self).contributions()
            } else {
                &&& res.distributed
                &&& gas_total(old(self).contributions()) == 0 ==> res.distributions@.len() == 0
                &&& gas_total(old(self).contributions()) > 0 ==> distributions_match(
                    res.distributions@,
                    payouts(
                        old(self).contributions(),
                        old(self).pool().available_for_distribution,
                        gas_total(old(self).contributions()),
                    ),
                    old(self).pool().epoch,
                    now,
                )
                &&& res.total_amount == amount_total(res.distributions@)
                &&& res.recipient_count == res.distributions@.len()
                &&& final(self).contributions() == rewarded(old(self).contributions(), res.distributions@)
                &&& final(self).pool().epoch == old(self).pool().epoch + 1
                &&& final(self).pool().available_for_distribution == sat_sub(
                    old(self).pool().available_for_distribution,
                    amount_total(res.distributions@),
                )
            },
    {
        let pool = self.mev_pool;
        if !self.should_distribute_at(&pool, now) || pool.available_for_distribution < self.minimum_distribution {
            return Ok(DistributionResult { distributed: false, total_amount: 0, recipient_count: 0, distributions: Vec::new() });
        }
        let distributions = self.calculate_distributions_at(now);
        let payment_results = self.payment_processor.process_distributions(distributions.as_slice());
        self.update_after_distribution_at(distributions.as_slice(), payment_results.as_slice(), now);
        let mut total: u128 = 0;
        let mut i: usize = 0;
        while i < distributions.len()
            invariant
                i <= distributions@.len(),
                total == amount_total(distributions@.subrange(0, i as int)),
            decreases distributions@.len() - i,
        {
            proof {
                assert(distributions@.subrange(0, i + 1).drop_last() =~= distributions@.subrange(0, i as int));
            }
            total = saturating_add(total, distributions[i].amount);
            i = i + 1;
        }
        assert(distributions@.subrange(0, distributions@.len() as int) =~= distributions@);
        let count = distributions.len();
        Ok(DistributionResult { distributed: true, total_amount: total, recipient_count: count, distributions })
    }

    /// A user's estimated pending reward: the share of what is available by gas used, zero
    /// for a user without a record or where no gas was used.
    pub fn get_user_pending_rewards(&self, user: &Address) -> (r: u128)
        requires
            self.wf(),
        ensures
            r == match record_of(self.contributions(), user.0@) {
                Some(i) => if gas_total(self.contributions()) > 0 {
                    gas_share(
                        self.contributions()[i].total_gas_used,
                        self.pool().available_for_distribution,
                        gas_total(self.contributions()),
                    )
                } else {
                    0
                },
                None => 0,
            },
    {
        match find_record(&self.user_contributions, user) {
            Some(j) => {
                let cs = &self.user_contributions;
                let mut total: u128 = 0;
                let mut i: usize = 0;
                while i < cs.len()
                    invariant
                        i <= cs@.len(),
                        total == gas_total(cs@.subrange(0, i as int)),
                    decreases cs@.len() - i,
                {
                    proof {
                        assert(cs@.subrange(0, i + 1).drop_last() =~= cs@.subrange(0, i as int));
                    }
                    total = saturating_add(total, cs[i].total_gas_used);
                    i = i + 1;
                }
                assert(cs@.subrange(0, cs@.len() as int) =~= cs@);
                if total > 0 {
                    saturating_mul(cs[j].total_gas_used, self.mev_pool.available_for_distribution) / total
                } else {
                    0
                }
            },
            None => 0,
        }
    }
}

} // verus!

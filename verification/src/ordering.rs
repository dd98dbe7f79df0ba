//! Fair ordering: priority data, commitments and scores for encrypted transactions, and a
//! verifiable delay function (repeated squaring modulo a public modulus) whose outputs
//! order a batch. Big numbers are big-endian byte strings computed with `num_bigint`.
use vstd::prelude::*;
use num_bigint::BigUint;
use vstd::arithmetic::power::pow;
use crate::config::OrderingConfig;
use crate::detection::{copy_transaction_of, same_tx};
use crate::error::OrderingError;
use crate::types::{
    be_u64, extend_bytes, keccak256, keccak256_digest, priority_rank, secs_of, seconds_of, tx_hash_preimage,
    u64_to_be_bytes, EncryptedTransaction, Priority, Transaction, TxHash,
};
use crate::u256::{be_value, lemma_minimal_unique, minimal_be, U256};

verus! {

/// `BigUint::from(base).pow(exponent)`, as minimal big-endian bytes (`to_bytes_be`).
#[verifier::external_body]
fn big_pow(base: u32, exponent: u32) -> (r: Vec<u8>)
    ensures
        be_value(r@) == pow(base as int, exponent as nat),
        minimal_be(r@),
{
    BigUint::from(base).pow(exponent).to_bytes_be()
}

/// `BigUint` addition of two big-endian numbers, as minimal big-endian bytes.
#[verifier::external_body]
fn big_add(a: &[u8], b: &[u8]) -> (r: Vec<u8>)
    ensures
        be_value(r@) == be_value(a@) + be_value(b@),
        minimal_be(r@),
{
    (BigUint::from_bytes_be(a) + BigUint::from_bytes_be(b)).to_bytes_be()
}

/// `(a * b) % m` with `BigUint`, as minimal big-endian bytes; `%` panics on a zero
/// modulus, which `requires` leaves out.
#[verifier::external_body]
fn big_mul_mod(a: &[u8], b: &[u8], m: &[u8]) -> (r: Vec<u8>)
    requires
        be_value(m@) > 0,
    ensures
        be_value(r@) == (be_value(a@) * be_value(b@)) % be_value(m@),
        minimal_be(r@),
{
    (&BigUint::from_bytes_be(a) * &BigUint::from_bytes_be(b) % &BigUint::from_bytes_be(m)).to_bytes_be()
}

/// `BigUint::from_bytes_be(a).to_bytes_be()`: the same number in minimal form.
#[verifier::external_body]
fn big_normalize(a: &[u8]) -> (r: Vec<u8>)
    ensures
        be_value(r@) == be_value(a@),
        minimal_be(r@),
{
    BigUint::from_bytes_be(a).to_bytes_be()
}

/// `BigUint` `<` on two big-endian numbers.
#[verifier::external_body]
fn big_less(a: &[u8], b: &[u8]) -> (r: bool)
    ensures
        r == (be_value(a@) < be_value(b@)),
{
    BigUint::from_bytes_be(a) < BigUint::from_bytes_be(b)
}

/// `BigUint` `==` on two big-endian numbers.
#[verifier::external_body]
fn big_equal(a: &[u8], b: &[u8]) -> (r: bool)
    ensures
        r == (be_value(a@) == be_value(b@)),
{
    BigUint::from_bytes_be(a) == BigUint::from_bytes_be(b)
}

/// `x` squared `n` times modulo `m`.
pub open spec fn vdf_iter(x: nat, n: nat, m: nat) -> nat
    decreases n,
{
    if n == 0 {
        x
    } else {
        let y = vdf_iter(x, (n - 1) as nat, m);
        (y * y) % m
    }
}

/// Parameters of the delay function.
#[derive(Debug, Clone)]
pub struct VDFParameters {
    pub difficulty: u64,
    pub security_param: u32,
    /// The modulus, big-endian.
    pub modulus: Vec<u8>,
    pub batch_size: u32,
}

/// A proof of a delay function evaluation.
#[derive(Debug, Clone)]
pub struct VDFProof {
    pub proof_hash: crate::types::Hash,
    /// Big-endian checkpoints.
    pub intermediate_values: Vec<Vec<u8>>,
    pub witness: Vec<u8>,
}

/// An evaluation of the delay function; the computation time is in milliseconds.
#[derive(Debug, Clone)]
pub struct VDFOutput {
    pub output: Vec<u8>,
    pub proof: VDFProof,
    pub computation_time: u64,
    pub verified: bool,
}

/// Commitment to the order of a transaction; the time is in milliseconds since the epoch.
#[derive(Debug, Clone)]
pub struct OrderingCommitment {
    pub transaction_hash: TxHash,
    pub submission_time: i64,
    pub priority_data: Vec<u8>,
    pub commitment_hash: crate::types::Hash,
    pub priority: u32,
}

/// The modulus `2^bits + 1` that the service uses.
pub fn generate_safe_prime(bits: u32) -> (r: Result<Vec<u8>, OrderingError>)
    ensures
        r matches Ok(m) && be_value(m@) == pow(2, bits as nat) + 1 && minimal_be(m@),
{
    let p = big_pow(2, bits);
    let one: [u8; 1] = [1u8];
    proof {
        assert(one@ =~= seq![1u8]);
        assert(one@.drop_last() =~= Seq::<u8>::empty());
        assert(be_value(one@) == be_value(Seq::<u8>::empty()) * 256 + 1);
    }
    Ok(big_add(p.as_slice(), &one))
}

/// Parameters of the delay function from the ordering configuration.
pub fn generate_vdf_parameters(config: &OrderingConfig) -> (r: Result<VDFParameters, OrderingError>)
    ensures
        r matches Ok(p) && p.difficulty == config.vdf_difficulty && p.security_param == config.vdf_security_param
            && p.batch_size == config.batch_size && be_value(p.modulus@) == pow(2, config.vdf_security_param as nat)
            + 1,
{
    let modulus = match generate_safe_prime(config.vdf_security_param) {
        Ok(m) => m,
        Err(e) => return Err(e),
    };
    Ok(
        VDFParameters {
            difficulty: config.vdf_difficulty,
            security_param: config.vdf_security_param,
            modulus,
            batch_size: config.batch_size,
        },
    )
}

/// The delay function: `input` squared `difficulty` times modulo the modulus.
pub fn compute_vdf_output(input: &[u8], params: &VDFParameters) -> (r: Result<Vec<u8>, OrderingError>)
    requires
        params.difficulty == 0 || be_value(params.modulus@) > 0,
    ensures
        r matches Ok(out) && be_value(out@) == vdf_iter(be_value(input@), params.difficulty as nat, be_value(params.modulus@)),
{
    let mut result: Vec<u8> = big_normalize(input);
    let mut i: u64 = 0;
    while i < params.difficulty
        invariant
            i <= params.difficulty,
            params.difficulty == 0 || be_value(params.modulus@) > 0,
            be_value(result@) == vdf_iter(be_value(input@), i as nat, be_value(params.modulus@)),
        decreases params.difficulty - i,
    {
        result = big_mul_mod(result.as_slice(), result.as_slice(), params.modulus.as_slice());
        i = i + 1;
    }
    Ok(result)
}

/// The checkpoints of a proof: the values after `0, c, 2c, ...` squarings below
/// `difficulty`, for the interval `c = difficulty / 10`.
pub open spec fn checkpoints_ok(vals: Seq<Vec<u8>>, input: nat, difficulty: nat, m: nat) -> bool {
    let c = (difficulty / 10) as int;
    &&& (difficulty == 0 ==> vals.len() == 0)
    &&& (difficulty > 0 ==> vals.len() == (difficulty + c - 1) / c)
    &&& forall|k: int| 0 <= k < vals.len() ==> be_value(#[trigger] vals[k]@) == vdf_iter(input, (k * c) as nat, m)
}

/// The bytes of a proof hash: input, output and the big-endian difficulty.
pub open spec fn proof_preimage(input_min: Seq<u8>, output_min: Seq<u8>, difficulty: u64) -> Seq<u8> {
    input_min + output_min + be_u64(difficulty)
}

/// The proof of an evaluation: checkpoints every tenth of the way, and the Keccak-256 of the
/// minimal input, the minimal output and the difficulty as hash and witness. A difficulty
/// between 1 and 9 gives a zero checkpoint interval, a division by zero; it is left out.
pub fn generate_vdf_proof(input: &[u8], output: &[u8], params: &VDFParameters) -> (r: Result<VDFProof, OrderingError>)
    requires
        params.difficulty == 0 || params.difficulty >= 10,
        params.difficulty == 0 || be_value(params.modulus@) > 0,
    ensures
        r matches Ok(p) && checkpoints_ok(
            p.intermediate_values@,
            be_value(input@),
            params.difficulty as nat,
            be_value(params.modulus@),
        ) && exists|i: Seq<u8>, o: Seq<u8>|
            minimal_be(i) && be_value(i) == be_value(input@) && minimal_be(o) && be_value(o) == be_value(output@)
                && p.proof_hash.0@ == #[trigger] keccak256(proof_preimage(i, o, params.difficulty)) && p.witness@
                == p.proof_hash.0@,
{
    let mut intermediate_values: Vec<Vec<u8>> = Vec::new();
    let mut current: Vec<u8> = big_normalize(input);
    let checkpoint_interval: u64 = params.difficulty / 10;
    let ghost x = be_value(input@);
    let ghost m = be_value(params.modulus@);
    let mut i: u64 = 0;
    while i < params.difficulty
        invariant
            i <= params.difficulty,
            params.difficulty == 0 || params.difficulty >= 10,
            params.difficulty == 0 || m > 0,
            m == be_value(params.modulus@),
            x == be_value(input@),
            checkpoint_interval == params.difficulty / 10,
            be_value(current@) == vdf_iter(x, i as nat, m),
            intermediate_values@.len() == (if i == 0 { 0 } else { (i as int + checkpoint_interval as int - 1) / (
            checkpoint_interval as int) }),
            forall|k: int|
                0 <= k < intermediate_values@.len() ==> be_value(#[trigger] intermediate_values@[k]@) == vdf_iter(
                    x,
                    (k * checkpoint_interval) as nat,
                    m,
                ),
        decreases params.difficulty - i,
    {
        let ghost c = checkpoint_interval as int;
        let ghost ii = i as int;
        if i % checkpoint_interval == 0 {
            let copy = big_normalize(current.as_slice());
            proof {
                if ii == 0 {
                    assert((ii + 1 + c - 1) / c == 1) by (nonlinear_arith)
                        requires
                            ii == 0,
                            c > 0,
                    ;
                    assert(0 * c == 0) by (nonlinear_arith);
                } else {
                    assert((ii + c - 1) / c == ii / c) by (nonlinear_arith)
                        requires
                            ii % c == 0,
                            c > 0,
                            ii > 0,
                    ;
                    assert((ii + 1 + c - 1) / c == ii / c + 1) by (nonlinear_arith)
                        requires
                            ii % c == 0,
                            c > 0,
                    ;
                }
                assert(ii / c * c == ii) by (nonlinear_arith)
                    requires
                        ii % c == 0,
                        c > 0,
                ;
            }
            intermediate_values.push(copy);
        } else {
            proof {
                assert(ii > 0) by {
                    if ii == 0 {
                        assert(0int % c == 0) by (nonlinear_arith)
                            requires
                                c > 0,
                        ;
                    }
                }
                assert((ii + 1 + c - 1) / c == (ii + c - 1) / c) by (nonlinear_arith)
                    requires
                        ii % c != 0,
                        c > 0,
                ;
            }
        }
        current = big_mul_mod(current.as_slice(), current.as_slice(), params.modulus.as_slice());
        i = i + 1;
    }
    let input_min = big_normalize(input);
    let output_min = big_normalize(output);
    let mut proof_data: Vec<u8> = Vec::new();
    extend_bytes(&mut proof_data, input_min.as_slice());
    extend_bytes(&mut proof_data, output_min.as_slice());
    let d = u64_to_be_bytes(params.difficulty);
    extend_bytes(&mut proof_data, d.as_slice());
    assert(proof_data@ =~= proof_preimage(input_min@, output_min@, params.difficulty));
    let digest = keccak256_digest(proof_data.as_slice());
    let proof_hash = crate::types::Hash(digest);
    let mut witness: Vec<u8> = Vec::new();
    extend_bytes(&mut witness, &proof_hash.0);
    Ok(VDFProof { proof_hash, intermediate_values, witness })
}

/// Minimal big-endian bytes of a `u128`, as `BigUint::to_bytes_be` gives them.
fn u128_minimal_bytes(x: u128) -> (r: Vec<u8>)
    ensures
        be_value(r@) == x,
        minimal_be(r@),
{
    let word = U256::from_u128(x).to_big_endian();
    big_normalize(word.as_slice())
}

/// Priority data from its fields: the minimal big-endian gas price, the big-endian
/// submission second, the priority rank and the big-endian chain id.
pub open spec fn priority_bytes_ok(d: Seq<u8>, gas_price: u128, submission_time: i64, priority: Priority, chain_id: u64) -> bool {
    let n = d.len() - 17;
    &&& n >= 1
    &&& minimal_be(d.subrange(0, n))
    &&& be_value(d.subrange(0, n)) == gas_price
    &&& d.subrange(n, n + 8) == be_u64(secs_of(submission_time) as u64)
    &&& d[n + 8] == priority_rank(priority)
    &&& d.subrange(n + 9, n + 17) == be_u64(chain_id)
}

/// The priority data of an encrypted transaction.
pub open spec fn priority_data_ok(d: Seq<u8>, tx: EncryptedTransaction) -> bool {
    priority_bytes_ok(d, tx.gas_price, tx.submission_time, tx.priority, tx.chain_id)
}

/// The priority data of an encrypted transaction.
pub fn create_priority_data(tx: &EncryptedTransaction) -> (r: Result<Vec<u8>, OrderingError>)
    ensures
        r matches Ok(d) && priority_data_ok(d@, *tx),
{
    let mut data: Vec<u8> = Vec::new();
    let gas = u128_minimal_bytes(tx.gas_price);
    extend_bytes(&mut data, gas.as_slice());
    let secs = seconds_of(tx.submission_time);
    let t = u64_to_be_bytes(secs as u64);
    extend_bytes(&mut data, t.as_slice());
    let rank = tx.priority.rank();
    data.push(rank);
    let c = u64_to_be_bytes(tx.chain_id);
    extend_bytes(&mut data, c.as_slice());
    proof {
        let n = gas@.len() as int;
        assert(data@.subrange(0, n) =~= gas@);
        assert(data@.subrange(n, n + 8) =~= t@);
        assert(data@.subrange(n + 9, n + 17) =~= c@);
    }
    Ok(data)
}

/// The bytes a commitment hash covers: transaction id, priority data, ciphertext and the
/// big-endian submission second.
pub open spec fn commitment_preimage(tx: EncryptedTransaction, priority_data: Seq<u8>) -> Seq<u8> {
    tx.id.0@ + priority_data + tx.encrypted_data@ + be_u64(secs_of(tx.submission_time) as u64)
}

/// The commitment hash of an encrypted transaction and its priority data.
pub fn create_deterministic_commitment(tx: &EncryptedTransaction, priority_data: &[u8]) -> (r: Result<crate::types::Hash, OrderingError>)
    ensures
        r matches Ok(h) && h.0@ == keccak256(commitment_preimage(*tx, priority_data@)),
{
    let mut buf: Vec<u8> = Vec::new();
    extend_bytes(&mut buf, &tx.id.0);
    extend_bytes(&mut buf, priority_data);
    extend_bytes(&mut buf, tx.encrypted_data.as_slice());
    let secs = seconds_of(tx.submission_time);
    let t = u64_to_be_bytes(secs as u64);
    extend_bytes(&mut buf, t.as_slice());
    assert(buf@ =~= commitment_preimage(*tx, priority_data@));
    let digest = keccak256_digest(buf.as_slice());
    Ok(crate::types::Hash::from(&digest))
}

/// Whole seconds between two times in milliseconds, truncated towards zero as
/// `chrono::Duration::num_seconds` does.
pub open spec fn elapsed_secs(now: i64, then: i64) -> int {
    let d = now as int - then as int;
    if d >= 0 {
        d / 1000
    } else {
        -((-d) / 1000)
    }
}

/// The priority score at `now`: the gas price in gwei (zero where it does not fit in
/// `u32`) capped at 1000, plus 100, 200 or 300 by priority, less the age in seconds taken
/// as `u32` and capped at 100, not below zero.
pub open spec fn priority_score(tx: EncryptedTransaction, now: i64) -> nat {
    let gwei = tx.gas_price / 1_000_000_000;
    let gas_score = if gwei > u32::MAX { 0 } else if gwei > 1000 { 1000 } else { gwei as nat };
    let prio = 100 * priority_rank(tx.priority);
    let age = elapsed_secs(now, tx.submission_time) as i64 as u32;
    let penalty = if age > 100 { 100 } else { age as nat };
    if gas_score + prio >= penalty {
        (gas_score + prio - penalty) as nat
    } else {
        0
    }
}

/// The priority score of a transaction at `now`.
pub fn calculate_priority_score_at(tx: &EncryptedTransaction, priority_data: &[u8], now: i64) -> (s: u32)
    ensures
        s == priority_score(*tx, now),
{
    let gwei: u128 = tx.gas_price / 1_000_000_000;
    let gas_score: u32 = if gwei > u32::MAX as u128 {
        0
    } else if gwei > 1000 {
        1000
    } else {
        gwei as u32
    };
    let prio: u32 = 100 * tx.priority.rank() as u32;
    let d: i128 = now as i128 - tx.submission_time as i128;
    let secs: i128 = if d >= 0 { d / 1000 } else { -((-d) / 1000) };
    assert(secs == elapsed_secs(now, tx.submission_time));
    let age: u32 = (secs as i64) as u32;
    let penalty: u32 = if age > 100 { 100 } else { age };
    let score = gas_score + prio;
    if score >= penalty {
        score - penalty
    } else {
        0
    }
}

/// The priority score of a transaction now.
pub fn calculate_priority_score(tx: &EncryptedTransaction, priority_data: &[u8]) -> (s: u32)
    ensures
        exists|now: i64| s == #[trigger] priority_score(*tx, now),
{
    let now = crate::clock::now_millis();
    calculate_priority_score_at(tx, priority_data, now)
}

/// The ordering commitment of an encrypted transaction at `now`.
pub fn create_ordering_commitment_at(tx: &EncryptedTransaction, now: i64) -> (r: Result<OrderingCommitment, OrderingError>)
    ensures
        r matches Ok(c) && c.transaction_hash == tx.id && c.submission_time == tx.submission_time
            && priority_data_ok(c.priority_data@, *tx) && c.commitment_hash.0@ == keccak256(
            commitment_preimage(*tx, c.priority_data@),
        ) && c.priority == priority_score(*tx, now),
{
    let priority_data = match create_priority_data(tx) {
        Ok(d) => d,
        Err(e) => return Err(e),
    };
    let commitment = match create_deterministic_commitment(tx, priority_data.as_slice()) {
        Ok(h) => h,
        Err(e) => return Err(e),
    };
    let priority = calculate_priority_score_at(tx, priority_data.as_slice(), now);
    Ok(
        OrderingCommitment {
            transaction_hash: tx.id,
            submission_time: tx.submission_time,
            priority_data,
            commitment_hash: commitment,
            priority,
        },
    )
}


/// Key `(v1, t1)` comes strictly before `(v2, t2)`: a smaller delay output, or an equal
/// output and an earlier submission.
pub open spec fn key_before(v1: nat, t1: i64, v2: nat, t2: i64) -> bool {
    v1 < v2 || (v1 == v2 && t1 < t2)
}

/// `perm` lists the indices of `vals` (and `times`) once each, in the order of their keys;
/// indices with equal keys keep their input order.
pub open spec fn sorted_perm(perm: Seq<int>, vals: Seq<nat>, times: Seq<i64>) -> bool {
    &&& perm.len() == vals.len()
    &&& forall|a: int| 0 <= a < perm.len() ==> 0 <= #[trigger] perm[a] < vals.len()
    &&& forall|a: int, b: int| 0 <= a < b < perm.len() ==> perm[a] != perm[b]
    &&& forall|a: int, b: int|
        0 <= a < b < perm.len() ==> !key_before(vals[perm[b]], times[perm[b]], vals[perm[a]], times[perm[a]])
    &&& forall|a: int, b: int|
        0 <= a < b < perm.len() && vals[perm[a]] == vals[perm[b]] && times[perm[a]] == times[perm[b]] ==> perm[a]
            < perm[b]
}

/// The delay outputs as numbers.
pub open spec fn output_values(outputs: Seq<VDFOutput>) -> Seq<nat> {
    Seq::new(outputs.len(), |i: int| be_value(outputs[i].output@))
}

/// The submission times of transactions.
pub open spec fn submission_times(txs: Seq<Transaction>) -> Seq<i64> {
    Seq::new(txs.len(), |i: int| txs[i].submission_time)
}

/// Transaction `i` comes strictly before transaction `j` by delay output and time.
fn comes_before(outputs: &[VDFOutput], txs: &[Transaction], i: usize, j: usize) -> (r: bool)
    requires
        i < outputs@.len(),
        j < outputs@.len(),
        outputs@.len() == txs@.len(),
    ensures
        r == key_before(
            output_values(outputs@)[i as int],
            submission_times(txs@)[i as int],
            output_values(outputs@)[j as int],
            submission_times(txs@)[j as int],
        ),
{
    let a = outputs[i].output.as_slice();
    let b = outputs[j].output.as_slice();
    big_less(a, b) || (big_equal(a, b) && txs[i].submission_time < txs[j].submission_time)
}

/// The transactions in the order of their delay outputs, ties broken by submission time,
/// equal keys in their input order.
pub fn order_by_outputs(txs: &[Transaction], outputs: &[VDFOutput]) -> (r: Vec<Transaction>)
    requires
        txs@.len() == outputs@.len(),
    ensures
        exists|perm: Seq<int>|
            #[trigger] sorted_perm(perm, output_values(outputs@), submission_times(txs@)) && r@.len() == perm.len()
                && forall|k: int| 0 <= k < perm.len() ==> #[trigger] same_tx(r@[k], txs@[perm[k]]),
{
    let ghost vals = output_values(outputs@);
    let ghost times = submission_times(txs@);
    let n = txs.len();
    let mut perm: Vec<usize> = Vec::new();
    let mut i: usize = 0;
    while i < n
        invariant
            n == txs@.len(),
            n == outputs@.len(),
            vals == output_values(outputs@),
            times == submission_times(txs@),
            i <= n,
            perm@.len() == i,
            forall|a: int| 0 <= a < perm@.len() ==> #[trigger] perm@[a] < i,
            forall|a: int, b: int| 0 <= a < b < perm@.len() ==> perm@[a] != perm@[b],
            forall|a: int, b: int|
                0 <= a < b < perm@.len() ==> !key_before(
                    vals[perm@[b] as int],
                    times[perm@[b] as int],
                    vals[perm@[a] as int],
                    times[perm@[a] as int],
                ),
            forall|a: int, b: int|
                0 <= a < b < perm@.len() && vals[perm@[a] as int] == vals[perm@[b] as int] && times[perm@[a] as int]
                    == times[perm@[b] as int] ==> perm@[a] < perm@[b],
        decreases n - i,
    {
        let mut p: usize = 0;
        while p < perm.len() && !comes_before(outputs, txs, i, perm[p])
            invariant
                n == txs@.len(),
                n == outputs@.len(),
                vals == output_values(outputs@),
                times == submission_times(txs@),
                i < n,
                p <= perm@.len(),
                forall|a: int| 0 <= a < perm@.len() ==> #[trigger] perm@[a] < i,
                forall|a: int|
                    0 <= a < p ==> !key_before(
                        vals[i as int],
                        times[i as int],
                        vals[#[trigger] perm@[a] as int],
                        times[perm@[a] as int],
                    ),
            decreases perm@.len() - p,
        {
            p = p + 1;
        }
        let ghost old_perm = perm@;
        perm.insert(p, i);
        proof {
            assert(perm@ == old_perm.insert(p as int, i));
            assert forall|a: int| 0 <= a < perm@.len() implies #[trigger] perm@[a] < i + 1 by {
                if a < p {
                    assert(perm@[a] == old_perm[a]);
                } else if a > p {
                    assert(perm@[a] == old_perm[a - 1]);
                }
            }
            assert forall|a: int, b: int| 0 <= a < b < perm@.len() implies perm@[a] != perm@[b] by {
                if a < p && b < p {
                    assert(perm@[a] == old_perm[a] && perm@[b] == old_perm[b]);
                } else if a < p && b == p {
                    assert(perm@[a] == old_perm[a]);
                } else if a < p {
                    assert(perm@[a] == old_perm[a] && perm@[b] == old_perm[b - 1]);
                } else if a == p {
                    assert(perm@[b] == old_perm[b - 1]);
                } else {
                    assert(perm@[a] == old_perm[a - 1] && perm@[b] == old_perm[b - 1]);
                }
            }
            // every old key from `p` on comes strictly after the new one
            assert forall|q: int| p <= q < old_perm.len() implies key_before(
                vals[i as int],
                times[i as int],
                vals[#[trigger] old_perm[q] as int],
                times[old_perm[q] as int],
            ) by {
                assert(key_before(vals[i as int], times[i as int], vals[old_perm[p as int] as int], times[old_perm[p as int] as int]));
                if q > p {
                    assert(!key_before(
                        vals[old_perm[q] as int],
                        times[old_perm[q] as int],
                        vals[old_perm[p as int] as int],
                        times[old_perm[p as int] as int],
                    ));
                }
            }
            assert forall|a: int, b: int| 0 <= a < b < perm@.len() implies !key_before(
                vals[perm@[b] as int],
                times[perm@[b] as int],
                vals[perm@[a] as int],
                times[perm@[a] as int],
            ) && (vals[perm@[a] as int] == vals[perm@[b] as int] && times[perm@[a] as int] == times[perm@[b] as int]
                ==> perm@[a] < perm@[b]) by {
                if a < p && b < p {
                    assert(perm@[a] == old_perm[a] && perm@[b] == old_perm[b]);
                } else if a < p && b == p {
                    assert(perm@[a] == old_perm[a]);
                    assert(old_perm[a] < i);
                } else if a < p {
                    assert(perm@[a] == old_perm[a] && perm@[b] == old_perm[b - 1]);
                } else if a == p {
                    assert(perm@[b] == old_perm[b - 1]);
                } else {
                    assert(perm@[a] == old_perm[a - 1] && perm@[b] == old_perm[b - 1]);
                }
            }
        }
        i = i + 1;
    }
    let mut out: Vec<Transaction> = Vec::new();
    let mut k: usize = 0;
    while k < n
        invariant
            n == txs@.len(),
            perm@.len() == n,
            forall|a: int| 0 <= a < perm@.len() ==> #[trigger] perm@[a] < n,
            k <= n,
            out@.len() == k,
            forall|b: int| 0 <= b < k ==> #[trigger] same_tx(out@[b], txs@[perm@[b] as int]),
        decreases n - k,
    {
        let t = copy_transaction_of(&txs[perm[k]]);
        out.push(t);
        k = k + 1;
    }
    let ghost pm = Seq::new(perm@.len(), |a: int| perm@[a] as int);
    assert(sorted_perm(pm, vals, times));
    assert forall|b: int| 0 <= b < pm.len() implies #[trigger] same_tx(out@[b], txs@[pm[b]]) by {
        assert(same_tx(out@[b], txs@[perm@[b] as int]));
    }
    out
}


/// The delay function and its proof for one commitment, whose hash is the input.
pub fn compute_vdf_single(commitment: &OrderingCommitment, params: &VDFParameters) -> (r: Result<VDFOutput, OrderingError>)
    requires
        params.difficulty == 0 || params.difficulty >= 10,
        params.difficulty == 0 || be_value(params.modulus@) > 0,
    ensures
        r matches Ok(o) && be_value(o.output@) == vdf_iter(
            be_value(commitment.commitment_hash.0@),
            params.difficulty as nat,
            be_value(params.modulus@),
        ) && !o.verified,
{
    let start = crate::clock::now_millis();
    let input = &commitment.commitment_hash.0;
    let output = match compute_vdf_output(input, params) {
        Ok(o) => o,
        Err(e) => return Err(e),
    };
    let proof = match generate_vdf_proof(input, output.as_slice(), params) {
        Ok(p) => p,
        Err(e) => return Err(e),
    };
    let end = crate::clock::now_millis();
    let computation_time: u64 = if end >= start { (end as i128 - start as i128) as u64 } else { 0 };
    Ok(VDFOutput { output, proof, computation_time, verified: false })
}

/// `n` zero bytes.
fn zero_bytes(n: usize) -> (r: Vec<u8>)
    ensures
        r@ == Seq::new(n as nat, |i: int| 0u8),
{
    let mut v: Vec<u8> = Vec::new();
    let mut i: usize = 0;
    while i < n
        invariant
            i <= n,
            v@ == Seq::new(i as nat, |k: int| 0u8),
        decreases n - i,
    {
        v.push(0);
        i = i + 1;
        assert(v@ =~= Seq::new(i as nat, |k: int| 0u8));
    }
    v
}

/// The delay outputs of the commitment hashes `hs`.
pub open spec fn delay_values(hs: Seq<Seq<u8>>, difficulty: u64, m: nat) -> Seq<nat> {
    Seq::new(hs.len(), |i: int| vdf_iter(be_value(hs[i]), difficulty as nat, m))
}

/// The commitment hash that ordering gives a plain transaction: it stands as an encrypted
/// transaction with its hash as id, 100 zero bytes as ciphertext and medium priority.
pub open spec fn tx_commitment_ok(tx: Transaction, h: Seq<u8>) -> bool {
    exists|d: Seq<u8>|
        #[trigger] priority_bytes_ok(d, tx.gas_price, tx.submission_time, Priority::Medium, tx.chain_id) && h
            == keccak256(
            keccak256(tx_hash_preimage(tx)) + d + Seq::new(100, |i: int| 0u8) + be_u64(secs_of(tx.submission_time) as u64),
        )
}

/// Key of the ordering cache.
#[derive(Debug, Clone, Copy)]
pub struct OrderingKey {
    pub commitment_hash: crate::types::Hash,
    pub block_height: u64,
}

/// A delay function task waiting in the queue; the time is in milliseconds.
#[derive(Debug, Clone)]
pub struct VDFTask {
    pub commitment: OrderingCommitment,
    pub start_time: i64,
    pub priority: u32,
}

/// Batch processor of delay function tasks: commitments wait until a batch is full, then
/// queue as tasks.
pub struct BatchProcessor {
    max_batch_size: usize,
    pending_commitments: Vec<OrderingCommitment>,
    processing_queue: Vec<VDFTask>,
}

impl BatchProcessor {
    /// The size at which a batch is queued.
    pub closed spec fn batch_size(&self) -> nat {
        self.max_batch_size as nat
    }

    /// The commitments waiting for a full batch.
    pub closed spec fn pending(&self) -> Seq<OrderingCommitment> {
        self.pending_commitments@
    }

    /// The queued tasks, oldest first.
    pub closed spec fn queue(&self) -> Seq<VDFTask> {
        self.processing_queue@
    }

    /// An empty processor with batches of `max_batch_size`.
    pub fn new(max_batch_size: usize) -> (b: Self)
        ensures
            b.batch_size() == max_batch_size,
            b.pending().len() == 0,
            b.queue().len() == 0,
    {
        BatchProcessor { max_batch_size, pending_commitments: Vec::new(), processing_queue: Vec::new() }
    }

    /// How many commitments wait.
    pub fn pending_len(&self) -> (n: usize)
        ensures
            n == self.pending().len(),
    {
        self.pending_commitments.len()
    }

    /// How many tasks are queued.
    pub fn queue_len(&self) -> (n: usize)
        ensures
            n == self.queue().len(),
    {
        self.processing_queue.len()
    }

    /// Adds a commitment; when the batch is full, every waiting commitment moves to the
    /// queue as a task started at `now` with priority zero. Every task has priority zero,
    /// so the queue's ordering by priority keeps their arrival order.
    pub fn add_commitment_at(&mut self, commitment: OrderingCommitment, now: i64) -> (r: Result<(), OrderingError>)
        ensures
            r is Ok,
            final(self).batch_size() == old(self).batch_size(),
            old(self).pending().len() + 1 < old(self).batch_size() ==> final(self).pending().len()
                == old(self).pending().len() + 1 && final(self).queue() == old(self).queue(),
            old(self).pending().len() + 1 >= old(self).batch_size() ==> final(self).pending().len() == 0
                && final(self).queue().len() == old(self).queue().len() + old(self).pending().len() + 1
                && final(self).queue().subrange(0, old(self).queue().len() as int) == old(self).queue()
                && forall|k: int|
                old(self).queue().len() <= k < final(self).queue().len() ==> (#[trigger] final(self).queue()[k]).start_time
                    == now && final(self).queue()[k].priority == 0,
    {
        self.pending_commitments.push(commitment);
        if self.pending_commitments.len() >= self.max_batch_size {
            let mut batch: Vec<OrderingCommitment> = Vec::new();
            std::mem::swap(&mut batch, &mut self.pending_commitments);
            self.queue_batch_for_processing(batch, now);
        }
        Ok(())
    }

    fn queue_batch_for_processing(&mut self, commitments: Vec<OrderingCommitment>, now: i64)
        ensures
            final(self).max_batch_size == old(self).max_batch_size,
            final(self).pending_commitments@ == old(self).pending_commitments@,
            final(self).processing_queue@.len() == old(self).processing_queue@.len() + commitments@.len(),
            final(self).processing_queue@.subrange(0, old(self).processing_queue@.len() as int)
                == old(self).processing_queue@,
            forall|k: int|
                old(self).processing_queue@.len() <= k < final(self).processing_queue@.len() ==> (
                #[trigger] final(self).processing_queue@[k]).start_time == now
                    && final(self).processing_queue@[k].priority == 0,
    {
        let mut commitments = commitments;
        let ghost start_len = self.processing_queue@.len();
        let total: usize = commitments.len();
        let mut taken: usize = 0;
        while commitments.len() > 0
            invariant
                self.max_batch_size == old(self).max_batch_size,
                self.pending_commitments@ == old(self).pending_commitments@,
                start_len == old(self).processing_queue@.len(),
                self.processing_queue@.len() == start_len + taken,
                taken + commitments@.len() == total,
                self.processing_queue@.subrange(0, start_len as int) == old(self).processing_queue@,
                forall|k: int|
                    start_len <= k < self.processing_queue@.len() ==> (#[trigger] self.processing_queue@[k]).start_time
                        == now && self.processing_queue@[k].priority == 0,
            decreases commitments@.len(),
        {
            let c = commitments.remove(0);
            let ghost before = self.processing_queue@;
            self.processing_queue.push(VDFTask { commitment: c, start_time: now, priority: 0 });
            proof {
                assert(self.processing_queue@.subrange(0, start_len as int) =~= before.subrange(0, start_len as int));
            }
            taken = taken + 1;
        }
    }
}

/// Fair ordering service: its configuration, delay function parameters, cache of
/// evaluations and batch processor.
pub struct FairOrderingService {
    pub config: OrderingConfig,
    pub vdf_params: VDFParameters,
    pub ordering_cache: Vec<(OrderingKey, VDFOutput)>,
    pub batch_processor: BatchProcessor,
}

impl FairOrderingService {
    /// A service for the configuration, with the modulus `2^security_param + 1`.
    pub fn new(config: OrderingConfig) -> (r: Result<Self, OrderingError>)
        ensures
            r matches Ok(s) && s.config == config && s.vdf_params.difficulty == config.vdf_difficulty
                && s.vdf_params.batch_size == config.batch_size && be_value(s.vdf_params.modulus@) == pow(
                2,
                config.vdf_security_param as nat,
            ) + 1 && s.ordering_cache@.len() == 0 && s.batch_processor.batch_size() == config.batch_size,
    {
        let vdf_params = match generate_vdf_parameters(&config) {
            Ok(p) => p,
            Err(e) => return Err(e),
        };
        let batch_processor = BatchProcessor::new(config.batch_size as usize);
        Ok(FairOrderingService { config, vdf_params, ordering_cache: Vec::new(), batch_processor })
    }

    /// Commitments for plain transactions at `now`.
    pub fn create_commitments_for_transactions_at(&self, transactions: &[Transaction], now: i64) -> (r: Result<Vec<OrderingCommitment>, OrderingError>)
        ensures
            r matches Ok(cs) && cs@.len() == transactions@.len() && forall|i: int|
                0 <= i < cs@.len() ==> tx_commitment_ok(transactions@[i], #[trigger] cs@[i].commitment_hash.0@),
    {
        let mut commitments: Vec<OrderingCommitment> = Vec::new();
        let mut i: usize = 0;
        while i < transactions.len()
            invariant
                i <= transactions@.len(),
                commitments@.len() == i,
                forall|k: int|
                    0 <= k < i ==> tx_commitment_ok(transactions@[k], #[trigger] commitments@[k].commitment_hash.0@),
            decreases transactions@.len() - i,
        {
            let tx = &transactions[i];
            let encrypted_tx = EncryptedTransaction {
                id: tx.hash(),
                encrypted_data: zero_bytes(100),
                submission_time: tx.submission_time,
                time_lock: None,
                priority: Priority::Medium,
                gas_price: tx.gas_price,
                chain_id: tx.chain_id,
            };
            let c = match create_ordering_commitment_at(&encrypted_tx, now) {
                Ok(c) => c,
                Err(e) => return Err(e),
            };
            proof {
                let d = c.priority_data@;
                assert(priority_bytes_ok(d, tx.gas_price, tx.submission_time, Priority::Medium, tx.chain_id));
                assert(commitment_preimage(encrypted_tx, d) =~= keccak256(tx_hash_preimage(*tx)) + d + Seq::new(
                    100,
                    |i: int| 0u8,
                ) + be_u64(secs_of(tx.submission_time) as u64));
            }
            commitments.push(c);
            i = i + 1;
        }
        Ok(commitments)
    }

    /// Delay function outputs of the commitments, in order.
    pub fn compute_vdf_batch(&self, commitments: &[OrderingCommitment]) -> (r: Result<Vec<VDFOutput>, OrderingError>)
        requires
            self.vdf_params.difficulty == 0 || self.vdf_params.difficulty >= 10,
            self.vdf_params.difficulty == 0 || be_value(self.vdf_params.modulus@) > 0,
            self.vdf_params.batch_size > 0,
        ensures
            r matches Ok(outs) && outs@.len() == commitments@.len() && forall|i: int|
                0 <= i < outs@.len() ==> be_value(#[trigger] outs@[i].output@) == vdf_iter(
                    be_value(commitments@[i].commitment_hash.0@),
                    self.vdf_params.difficulty as nat,
                    be_value(self.vdf_params.modulus@),
                ),
    {
        let mut results: Vec<VDFOutput> = Vec::new();
        let mut i: usize = 0;
        while i < commitments.len()
            invariant
                i <= commitments@.len(),
                results@.len() == i,
                self.vdf_params.difficulty == 0 || self.vdf_params.difficulty >= 10,
                self.vdf_params.difficulty == 0 || be_value(self.vdf_params.modulus@) > 0,
                forall|k: int|
                    0 <= k < i ==> be_value(#[trigger] results@[k].output@) == vdf_iter(
                        be_value(commitments@[k].commitment_hash.0@),
                        self.vdf_params.difficulty as nat,
                        be_value(self.vdf_params.modulus@),
                    ),
            decreases commitments@.len() - i,
        {
            let o = match compute_vdf_single(&commitments[i], &self.vdf_params) {
                Ok(o) => o,
                Err(e) => return Err(e),
            };
            results.push(o);
            i = i + 1;
        }
        Ok(results)
    }

    /// Orders transactions at `now` by the delay output of their commitments, ties by
    /// submission time, equal keys in their input order.
    pub fn order_transactions_at(&self, transactions: Vec<Transaction>, now: i64) -> (r: Result<Vec<Transaction>, OrderingError>)
        requires
            self.vdf_params.difficulty == 0 || self.vdf_params.difficulty >= 10,
            self.vdf_params.difficulty == 0 || be_value(self.vdf_params.modulus@) > 0,
            self.vdf_params.batch_size > 0,
        ensures
            r matches Ok(v) && exists|hs: Seq<Seq<u8>>, perm: Seq<int>|
                #![trigger sorted_perm(perm, delay_values(hs, self.vdf_params.difficulty, be_value(self.vdf_params.modulus@)), submission_times(transactions@))]
                hs.len() == transactions@.len() && (forall|i: int|
                    0 <= i < hs.len() ==> tx_commitment_ok(transactions@[i], #[trigger] hs[i])) && sorted_perm(
                    perm,
                    delay_values(hs, self.vdf_params.difficulty, be_value(self.vdf_params.modulus@)),
                    submission_times(transactions@),
                ) && v@.len() == perm.len() && forall|k: int|
                    0 <= k < perm.len() ==> #[trigger] same_tx(v@[k], transactions@[perm[k]]),
    {
        let commitments = match self.create_commitments_for_transactions_at(transactions.as_slice(), now) {
            Ok(c) => c,
            Err(e) => return Err(e),
        };
        let outputs = match self.compute_vdf_batch(commitments.as_slice()) {
            Ok(o) => o,
            Err(e) => return Err(e),
        };
        let ordered = order_by_outputs(transactions.as_slice(), outputs.as_slice());
        proof {
            let hs = Seq::new(commitments@.len(), |i: int| commitments@[i].commitment_hash.0@);
            let vals = delay_values(hs, self.vdf_params.difficulty, be_value(self.vdf_params.modulus@));
            assert(vals =~= output_values(outputs@));
            let perm = choose|perm: Seq<int>|
                #[trigger] sorted_perm(perm, output_values(outputs@), submission_times(transactions@)) && ordered@.len()
                    == perm.len() && forall|k: int| 0 <= k < perm.len() ==> #[trigger] same_tx(ordered@[k], transactions@[perm[k]]);
            assert forall|i: int| 0 <= i < hs.len() implies tx_commitment_ok(transactions@[i], #[trigger] hs[i]) by {
                assert(tx_commitment_ok(transactions@[i], commitments@[i].commitment_hash.0@));
            }
            assert(sorted_perm(perm, vals, submission_times(transactions@)));
        }
        Ok(ordered)
    }

    /// Orders transactions now, as `order_transactions_at` does at the clock's reading: by
    /// the delay output of their commitments, ties by submission time, equal keys in their
    /// input order.
    pub fn order_transactions(&self, transactions: Vec<Transaction>) -> (r: Result<Vec<Transaction>, OrderingError>)
        requires
            self.vdf_params.difficulty == 0 || self.vdf_params.difficulty >= 10,
            self.vdf_params.difficulty == 0 || be_value(self.vdf_params.modulus@) > 0,
            self.vdf_params.batch_size > 0,
        ensures
            r matches Ok(v) && exists|hs: Seq<Seq<u8>>, perm: Seq<int>|
                #![trigger sorted_perm(perm, delay_values(hs, self.vdf_params.difficulty, be_value(self.vdf_params.modulus@)), submission_times(transactions@))]
                hs.len() == transactions@.len() && (forall|i: int|
                    0 <= i < hs.len() ==> tx_commitment_ok(transactions@[i], #[trigger] hs[i])) && sorted_perm(
                    perm,
                    delay_values(hs, self.vdf_params.difficulty, be_value(self.vdf_params.modulus@)),
                    submission_times(transactions@),
                ) && v@.len() == perm.len() && forall|k: int|
                    0 <= k < perm.len() ==> #[trigger] same_tx(v@[k], transactions@[perm[k]]),
    {
        let now = crate::clock::now_millis();
        self.order_transactions_at(transactions, now)
    }

    /// The ordering commitment of an encrypted transaction now.
    pub fn create_ordering_commitment(&self, tx: &EncryptedTransaction) -> (r: Result<OrderingCommitment, OrderingError>)
        ensures
            r matches Ok(c) && c.transaction_hash == tx.id && priority_data_ok(c.priority_data@, *tx)
                && c.commitment_hash.0@ == keccak256(commitment_preimage(*tx, c.priority_data@)) && exists|now: i64|
                c.priority == #[trigger] priority_score(*tx, now),
    {
        let now = crate::clock::now_millis();
        create_ordering_commitment_at(tx, now)
    }
}


/// The priority data of a transaction's commitment is fixed by its fields.
proof fn lemma_priority_bytes_unique(
    d1: Seq<u8>,
    d2: Seq<u8>,
    gas_price: u128,
    submission_time: i64,
    priority: Priority,
    chain_id: u64,
)
    requires
        priority_bytes_ok(d1, gas_price, submission_time, priority, chain_id),
        priority_bytes_ok(d2, gas_price, submission_time, priority, chain_id),
    ensures
        d1 == d2,
{
    let n1 = d1.len() - 17;
    let n2 = d2.len() - 17;
    lemma_minimal_unique(d1.subrange(0, n1), d2.subrange(0, n2));
    assert(n1 == n2);
    let n = n1;
    assert forall|i: int| 0 <= i < d1.len() implies d1[i] == d2[i] by {
        if i < n {
            assert(d1.subrange(0, n)[i] == d2.subrange(0, n)[i]);
        } else if i < n + 8 {
            assert(d1.subrange(n, n + 8)[i - n] == d2.subrange(n, n + 8)[i - n]);
        } else if i > n + 8 {
            assert(d1.subrange(n + 9, n + 17)[i - n - 9] == d2.subrange(n + 9, n + 17)[i - n - 9]);
        }
    }
    assert(d1 =~= d2);
}

/// A transaction has one commitment hash.
proof fn lemma_tx_commitment_unique(tx: Transaction, h1: Seq<u8>, h2: Seq<u8>)
    requires
        tx_commitment_ok(tx, h1),
        tx_commitment_ok(tx, h2),
    ensures
        h1 == h2,
{
    let d1 = choose|d: Seq<u8>|
        #[trigger] priority_bytes_ok(d, tx.gas_price, tx.submission_time, Priority::Medium, tx.chain_id) && h1
            == keccak256(
            keccak256(tx_hash_preimage(tx)) + d + Seq::new(100, |i: int| 0u8) + be_u64(secs_of(tx.submission_time) as u64),
        );
    let d2 = choose|d: Seq<u8>|
        #[trigger] priority_bytes_ok(d, tx.gas_price, tx.submission_time, Priority::Medium, tx.chain_id) && h2
            == keccak256(
            keccak256(tx_hash_preimage(tx)) + d + Seq::new(100, |i: int| 0u8) + be_u64(secs_of(tx.submission_time) as u64),
        );
    lemma_priority_bytes_unique(d1, d2, tx.gas_price, tx.submission_time, Priority::Medium, tx.chain_id);
}

/// Index `i` ranks before index `j`: by key, and by position among equal keys.
pub open spec fn ranks_before(vals: Seq<nat>, times: Seq<i64>, i: int, j: int) -> bool {
    key_before(vals[i], times[i], vals[j], times[j]) || (vals[i] == vals[j] && times[i] == times[j] && i < j)
}

/// A sorted permutation lists its indices in rank order.
proof fn lemma_sorted_perm_ranks(perm: Seq<int>, vals: Seq<nat>, times: Seq<i64>, a: int, b: int)
    requires
        sorted_perm(perm, vals, times),
        0 <= a < b < perm.len(),
    ensures
        ranks_before(vals, times, perm[a], perm[b]),
{
    let i = perm[a];
    let j = perm[b];
    assert(!key_before(vals[j], times[j], vals[i], times[i]));
    if vals[i] == vals[j] && times[i] == times[j] {
        assert(i < j);
    }
}

/// A sorted permutation holds every index.
pub(crate) proof fn lemma_perm_covers(perm: Seq<int>, n: nat, x: int)
    requires
        perm.len() == n,
        forall|a: int| 0 <= a < n ==> 0 <= #[trigger] perm[a] < n,
        forall|a: int, b: int| 0 <= a < b < n ==> perm[a] != perm[b],
        0 <= x < n,
    ensures
        exists|a: int| 0 <= a < n && perm[a] == x,
{
    assert(perm.no_duplicates()) by {
        assert forall|i: int, j: int| 0 <= i < perm.len() && 0 <= j < perm.len() && i != j implies perm[i]
            != perm[j] by {
            if i < j {
            } else {
            }
        }
    }
    perm.unique_seq_to_set();
    let r = vstd::set_lib::set_int_range(0, n as int);
    vstd::set_lib::lemma_int_range(0, n as int);
    assert(perm.to_set().subset_of(r)) by {
        assert forall|v: int| perm.to_set().contains(v) implies r.contains(v) by {
            let a = choose|a: int| 0 <= a < perm.len() && perm[a] == v;
        }
    }
    vstd::set_lib::lemma_subset_equality(perm.to_set(), r);
    assert(r.contains(x));
    assert(perm.to_set().contains(x));
}

/// Two sorted permutations of the same keys agree on a prefix of every length.
proof fn lemma_sorted_perm_prefix(p1: Seq<int>, p2: Seq<int>, vals: Seq<nat>, times: Seq<i64>, k: int)
    requires
        sorted_perm(p1, vals, times),
        sorted_perm(p2, vals, times),
        times.len() == vals.len(),
        0 <= k <= p1.len(),
    ensures
        forall|a: int| 0 <= a < k ==> p1[a] == p2[a],
    decreases k,
{
    if k > 0 {
        lemma_sorted_perm_prefix(p1, p2, vals, times, k - 1);
        let a = k - 1;
        let x = p1[a];
        let y = p2[a];
        if x != y {
            let n = vals.len();
            lemma_perm_covers(p2, n, x);
            let b = choose|b: int| 0 <= b < n && p2[b] == x;
            lemma_perm_covers(p1, n, y);
            let c = choose|c: int| 0 <= c < n && p1[c] == y;
            if b < a {
                assert(p1[b] == p2[b]);
                assert(false);
            }
            if c < a {
                assert(p1[c] == p2[c]);
                assert(false);
            }
            assert(b != a && c != a);
            lemma_sorted_perm_ranks(p2, vals, times, a, b);
            lemma_sorted_perm_ranks(p1, vals, times, a, c);
            assert(false);
        }
    }
}

/// Keys, with ties in position order, have one sorted order.
pub proof fn lemma_sorted_perm_unique(p1: Seq<int>, p2: Seq<int>, vals: Seq<nat>, times: Seq<i64>)
    requires
        sorted_perm(p1, vals, times),
        sorted_perm(p2, vals, times),
        times.len() == vals.len(),
    ensures
        p1 == p2,
{
    lemma_sorted_perm_prefix(p1, p2, vals, times, p1.len() as int);
    assert(p1 =~= p2);
}

/// Fair ordering is deterministic: two orderings of the same transactions under the same
/// delay parameters (see `order_transactions_at`) put them in the same order.
pub proof fn lemma_fair_ordering_deterministic(
    txs: Seq<Transaction>,
    difficulty: u64,
    modulus: nat,
    hs1: Seq<Seq<u8>>,
    hs2: Seq<Seq<u8>>,
    p1: Seq<int>,
    p2: Seq<int>,
)
    requires
        hs1.len() == txs.len(),
        hs2.len() == txs.len(),
        forall|i: int| 0 <= i < txs.len() ==> tx_commitment_ok(txs[i], #[trigger] hs1[i]),
        forall|i: int| 0 <= i < txs.len() ==> tx_commitment_ok(txs[i], #[trigger] hs2[i]),
        sorted_perm(p1, delay_values(hs1, difficulty, modulus), submission_times(txs)),
        sorted_perm(p2, delay_values(hs2, difficulty, modulus), submission_times(txs)),
    ensures
        p1 == p2,
{
    assert forall|i: int| 0 <= i < txs.len() implies hs1[i] == hs2[i] by {
        lemma_tx_commitment_unique(txs[i], hs1[i], hs2[i]);
    }
    assert(hs1 =~= hs2);
    lemma_sorted_perm_unique(p1, p2, delay_values(hs1, difficulty, modulus), submission_times(txs));
}

} // verus!

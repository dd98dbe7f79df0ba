//! The coordinator: which transactions it accepts for protection, the execution
//! schedule of a protection level, the savings it estimates, and the core that runs a
//! transaction through encryption, screening and fair ordering.
use vstd::prelude::*;
use crate::config::{DetectionConfig, EncryptionConfig, OrderingConfig};
use crate::detection::{
    same_tx, suspect_count, suspicious, BatchAnalysisResult, DetectionService, MEVType, MEV_GAS_PRICE_THRESHOLD,
};
use crate::encryption::{
    aes256gcm_open, aes256gcm_seal, aes_gcm_max_input, pool_has, pool_stored, record_of, same_encrypted,
    validation_failure, Ciphertext, EncryptedMempoolService,
};
use crate::error::{EncryptionError, MEVShieldError};
use crate::ordering::{
    create_ordering_commitment_at, delay_values, lemma_perm_covers, priority_score, sorted_perm, submission_times,
    tx_commitment_ok, FairOrderingService,
};
use crate::types::{
    encrypted_hash_preimage, keccak256, tx_hash_preimage, EncryptedTransaction, ExecutionStatus, ProtectionDetails,
    ProtectionLevel, ProtectionMethod, Transaction, TransactionStatus, TxHash,
};
use crate::u256::be_value;

verus! {

/// The largest value accepted for protection: 10^25 wei.
pub const MAX_PROTECTED_VALUE: u128 = 10_000_000_000_000_000_000_000_000;

/// The highest gas limit accepted for protection.
pub const MAX_PROTECTED_GAS: u64 = 30_000_000;

/// Checks a transaction submitted for protection: its value must not exceed 10^25 wei
/// and its gas limit 30 million.
pub fn validate_transaction(tx: &Transaction) -> (r: Result<(), MEVShieldError>)
    ensures
        tx.value > MAX_PROTECTED_VALUE ==> (r matches Err(MEVShieldError::InvalidTransaction(m)) && m@
            == "Value too large"@),
        tx.value <= MAX_PROTECTED_VALUE && tx.gas > MAX_PROTECTED_GAS ==> (r matches Err(
            MEVShieldError::InvalidTransaction(m),
        ) && m@ == "Gas limit too high"@),
        tx.value <= MAX_PROTECTED_VALUE && tx.gas <= MAX_PROTECTED_GAS ==> r is Ok,
{
    if tx.value > MAX_PROTECTED_VALUE {
        return Err(MEVShieldError::InvalidTransaction(String::from_str("Value too large")));
    }
    if tx.gas > MAX_PROTECTED_GAS {
        return Err(MEVShieldError::InvalidTransaction(String::from_str("Gas limit too high")));
    }
    Ok(())
}

/// The time lock of a protection level, in seconds: 5, 10, 15 or 20.
pub open spec fn level_delay(level: ProtectionLevel) -> u64 {
    match level {
        ProtectionLevel::Basic => 5,
        ProtectionLevel::Standard => 10,
        ProtectionLevel::Maximum => 15,
        ProtectionLevel::Enterprise => 20,
    }
}

/// When a protected transaction is expected to execute: its time lock after `now`
/// (milliseconds), with the ordering priority it was committed with.
#[derive(Debug, Clone, Copy, PartialEq, Eq, Structural)]
pub struct ExecutionSchedule {
    pub estimated_execution_time: i64,
    pub time_lock_duration: u64,
    pub ordering_priority: u64,
}

/// The execution schedule of a transaction protected at `level` at `now`.
pub fn calculate_execution_schedule(level: ProtectionLevel, ordering_priority: u64, now: i64) -> (s: ExecutionSchedule)
    requires
        now + 20000 <= i64::MAX,
    ensures
        s.time_lock_duration == level_delay(level),
        s.estimated_execution_time == now + level_delay(level) * 1000,
        s.ordering_priority == ordering_priority,
{
    let delay: u64 = match level {
        ProtectionLevel::Basic => 5,
        ProtectionLevel::Standard => 10,
        ProtectionLevel::Maximum => 15,
        ProtectionLevel::Enterprise => 20,
    };
    ExecutionSchedule {
        estimated_execution_time: now + (delay * 1000) as i64,
        time_lock_duration: delay,
        ordering_priority,
    }
}

/// The MEV savings estimated for a transaction: a tenth of a percent of its value.
pub fn estimate_mev_savings(tx: &Transaction) -> (r: u128)
    ensures
        r == tx.value / 1000,
{
    tx.value / 1000
}

/// What a protected submission gives back: a fresh id, the transaction's hash and that of
/// its sealed form, its schedule, and the estimated savings in wei.
#[derive(Debug, Clone)]
pub struct ProtectedTransactionResult {
    pub transaction_id: u128,
    pub original_hash: TxHash,
    pub encrypted_hash: TxHash,
    pub protection_applied: bool,
    pub execution_schedule: ExecutionSchedule,
    pub mev_detected: bool,
    pub estimated_savings: u128,
}

/// `p` is what some entry of the pool opens to under `key`.
pub open spec fn sealed_in(pool: Seq<(EncryptedTransaction, [u8; 12])>, key: Seq<u8>, p: Seq<u8>) -> bool {
    exists|a: int|
        0 <= a < pool.len() && aes256gcm_open(key, (#[trigger] pool[a]).1@, pool[a].0.encrypted_data@) == Some(p)
}

/// The byte sequences of payloads.
pub open spec fn payload_views(v: Seq<Vec<u8>>) -> Seq<Seq<u8>> {
    Seq::new(v.len(), |j: int| v[j]@)
}

/// What the pool entries at `idx` open to under `key`, in that order; an entry that does
/// not open gives nothing.
pub open spec fn opened_payloads(pool: Seq<(EncryptedTransaction, [u8; 12])>, key: Seq<u8>, idx: Seq<int>) -> Seq<
    Seq<u8>,
>
    decreases idx.len(),
{
    if idx.len() == 0 {
        Seq::empty()
    } else {
        let prev = opened_payloads(pool, key, idx.drop_last());
        match aes256gcm_open(key, pool[idx.last()].1@, pool[idx.last()].0.encrypted_data@) {
            Some(p) => prev.push(p),
            None => prev,
        }
    }
}

/// Whether the validators give enough shares to open a pooled transaction.
pub open spec fn shares_suffice(s: EncryptedMempoolService) -> bool {
    crate::encryption::share_count(s.configuration().threshold as nat, s.validator_count())
        >= s.configuration().threshold
}

/// The core: the encrypted mempool, the fair ordering service and the screening service.
pub struct MEVShieldCore {
    pub encryption_service: EncryptedMempoolService,
    pub ordering_service: FairOrderingService,
    pub detection_service: DetectionService,
}

/// No transaction of `txs` is taken for MEV exactly when none counts.
proof fn lemma_no_suspects(txs: Seq<Transaction>)
    ensures
        (suspect_count(txs) == 0) == (forall|k: int| 0 <= k < txs.len() ==> !suspicious(#[trigger] txs[k])),
    decreases txs.len(),
{
    if txs.len() > 0 {
        lemma_no_suspects(txs.drop_last());
        if suspect_count(txs) == 0 {
            assert forall|k: int| 0 <= k < txs.len() implies !suspicious(#[trigger] txs[k]) by {
                if k < txs.len() - 1 {
                    assert(txs.drop_last()[k] == txs[k]);
                }
            }
        } else if !suspicious(txs.last()) {
            let k = choose|k: int| 0 <= k < txs.drop_last().len() && suspicious(#[trigger] txs.drop_last()[k]);
            assert(txs[k] == txs.drop_last()[k]);
        }
    }
}

impl MEVShieldCore {
    /// The core for the three configurations; a threshold above the validator count is
    /// refused.
    pub fn new(encryption: EncryptionConfig, ordering: OrderingConfig, detection: DetectionConfig) -> (r: Result<
        Self,
        MEVShieldError,
    >)
        ensures
            encryption.threshold > encryption.total_validators ==> (r matches Err(e) && e
                == MEVShieldError::Encryption(EncryptionError::InvalidShare { validator_id: 0 })),
            encryption.threshold <= encryption.total_validators ==> (r matches Ok(c) && c.encryption_service.wf()
                && c.encryption_service.configuration() == encryption && c.encryption_service.pool().len() == 0
                && c.ordering_service.config == ordering && c.ordering_service.vdf_params.difficulty
                == ordering.vdf_difficulty && c.ordering_service.vdf_params.batch_size == ordering.batch_size
                && be_value(c.ordering_service.vdf_params.modulus@) > 0 && c.detection_service.config == detection),
    {
        let encryption_service = match EncryptedMempoolService::new(encryption) {
            Ok(s) => s,
            Err(e) => return Err(e),
        };
        let ordering_service = match FairOrderingService::new(ordering) {
            Ok(s) => s,
            Err(e) => return Err(MEVShieldError::OrderingService(e)),
        };
        proof {
            vstd::arithmetic::power::lemma_pow_positive(2, ordering.vdf_security_param as nat);
        }
        let detection_service = DetectionService::new(detection);
        Ok(MEVShieldCore { encryption_service, ordering_service, detection_service })
    }

    /// Takes a transaction that has been sealed as `sealed` into protection at `now`, under
    /// the id `transaction_id`: stores it in the mempool (a full pool refuses it), screens it
    /// (a suspicious one is refused, though it stays sealed in the pool), commits to its
    /// order and schedules it by the protection level.
    pub fn protect_sealed_at(
        &mut self,
        transaction: &Transaction,
        sealed: Ciphertext,
        transaction_id: u128,
        level: ProtectionLevel,
        now: i64,
    ) -> (r: Result<ProtectedTransactionResult, MEVShieldError>)
        requires
            old(self).encryption_service.wf(),
            now <= i64::MAX - 20_000,
        ensures
            final(self).encryption_service.wf(),
            final(self).encryption_service.configuration() == old(self).encryption_service.configuration(),
            final(self).encryption_service.key() == old(self).encryption_service.key(),
            final(self).ordering_service == old(self).ordering_service,
            final(self).detection_service == old(self).detection_service,
            old(self).encryption_service.pool().len() >= old(self).encryption_service.configuration().max_pool_size
                ==> (r matches Err(MEVShieldError::ResourceExhausted(m)) && m@ == "Encrypted mempool is full"@
                && final(self).encryption_service.pool() == old(self).encryption_service.pool()),
            old(self).encryption_service.pool().len() < old(self).encryption_service.configuration().max_pool_size
                ==> exists|e: EncryptedTransaction|
                {
                    &&& #[trigger] record_of(e, *transaction, sealed.data@, now)
                    &&& pool_stored(
                        old(self).encryption_service.pool(),
                        final(self).encryption_service.pool(),
                        e,
                        sealed.nonce,
                    )
                    &&& if suspicious(*transaction) {
                        r matches Err(MEVShieldError::MEVDetected(d)) && d.is_mev_detected && d.mev_type == Some(
                            MEVType::Unknown,
                        ) && d.confidence == 85
                    } else {
                        r matches Ok(res) && res.transaction_id == transaction_id && res.original_hash.0@
                            == keccak256(tx_hash_preimage(*transaction)) && res.protection_applied && !res.mev_detected
                            && res.estimated_savings == transaction.value / 1000
                            && res.execution_schedule.time_lock_duration == level_delay(level)
                            && res.execution_schedule.estimated_execution_time == now + level_delay(level) * 1000
                            && res.encrypted_hash.0@ == keccak256(encrypted_hash_preimage(e))
                            && res.execution_schedule.ordering_priority == priority_score(e, now)
                    }
                },
    {
        let encrypted_tx = match self.encryption_service.store_encrypted_at(transaction, sealed, now) {
            Ok(e) => e,
            Err(e) => return Err(e),
        };
        let detection_result = match self.detection_service.analyze_transaction(transaction) {
            Ok(d) => d,
            Err(e) => return Err(e),
        };
        if detection_result.is_mev_detected() {
            assert(record_of(encrypted_tx, *transaction, sealed.data@, now));
            return Err(MEVShieldError::MEVDetected(detection_result));
        }
        let ordering_commitment = match create_ordering_commitment_at(&encrypted_tx, now) {
            Ok(c) => c,
            Err(e) => return Err(MEVShieldError::OrderingService(e)),
        };
        let execution_schedule = calculate_execution_schedule(level, ordering_commitment.priority as u64, now);
        let original_hash = transaction.hash();
        let encrypted_hash = encrypted_tx.hash();
        assert(record_of(encrypted_tx, *transaction, sealed.data@, now));
        Ok(
            ProtectedTransactionResult {
                transaction_id,
                original_hash,
                encrypted_hash,
                protection_applied: true,
                execution_schedule,
                mev_detected: false,
                estimated_savings: estimate_mev_savings(transaction),
            },
        )
    }

    /// Takes a transaction, with its serialized bytes, into protection at `now`: checks it,
    /// seals it into the mempool, screens it (a suspicious one is refused, though it stays
    /// sealed in the pool), commits to its order and schedules it by the protection level.
    pub fn submit_protected_transaction_at(
        &mut self,
        transaction: &Transaction,
        tx_data: &[u8],
        level: ProtectionLevel,
        now: i64,
    ) -> (r: Result<ProtectedTransactionResult, MEVShieldError>)
        requires
            old(self).encryption_service.wf(),
            now <= i64::MAX - 20_000,
        ensures
            final(self).encryption_service.wf(),
            final(self).encryption_service.configuration() == old(self).encryption_service.configuration(),
            final(self).encryption_service.key() == old(self).encryption_service.key(),
            final(self).ordering_service == old(self).ordering_service,
            final(self).detection_service == old(self).detection_service,
            transaction.value > MAX_PROTECTED_VALUE ==> (r matches Err(MEVShieldError::InvalidTransaction(m))
                && m@ == "Value too large"@ && final(self).encryption_service.pool() == old(
                self,
            ).encryption_service.pool()),
            transaction.value <= MAX_PROTECTED_VALUE && transaction.gas > MAX_PROTECTED_GAS ==> (r matches Err(
                MEVShieldError::InvalidTransaction(m),
            ) && m@ == "Gas limit too high"@ && final(self).encryption_service.pool() == old(
                self,
            ).encryption_service.pool()),
            transaction.value <= MAX_PROTECTED_VALUE && transaction.gas <= MAX_PROTECTED_GAS && validation_failure(
                *transaction,
            ) is Some ==> (r matches Err(MEVShieldError::Encryption(EncryptionError::CryptoError(s))) && Some(s@)
                == validation_failure(*transaction) && final(self).encryption_service.pool() == old(
                self,
            ).encryption_service.pool()),
            r matches Err(MEVShieldError::ResourceExhausted(m)) ==> (m@ == "Encrypted mempool is full"@ && old(
                self,
            ).encryption_service.pool().len() >= old(self).encryption_service.configuration().max_pool_size),
            r matches Err(MEVShieldError::MEVDetected(d)) ==> (suspicious(*transaction) && d.is_mev_detected
                && d.mev_type == Some(MEVType::Unknown) && d.confidence == 85),
            transaction.value <= MAX_PROTECTED_VALUE && transaction.gas <= MAX_PROTECTED_GAS && validation_failure(
                *transaction,
            ) is None && tx_data@.len() <= aes_gcm_max_input() && old(self).encryption_service.pool().len() < old(
                self,
            ).encryption_service.configuration().max_pool_size ==> (r matches Err(
                MEVShieldError::Encryption(EncryptionError::CryptoError(_)),
            ) || (if suspicious(*transaction) {
                r is Err && r->Err_0 is MEVDetected
            } else {
                r is Ok
            })),
            r matches Ok(res) ==> {
                &&& transaction.value <= MAX_PROTECTED_VALUE && transaction.gas <= MAX_PROTECTED_GAS
                &&& validation_failure(*transaction) is None && !suspicious(*transaction)
                &&& res.original_hash.0@ == keccak256(tx_hash_preimage(*transaction))
                &&& res.protection_applied && !res.mev_detected
                &&& res.estimated_savings == transaction.value / 1000
                &&& res.execution_schedule.time_lock_duration == level_delay(level)
                &&& res.execution_schedule.estimated_execution_time == now + level_delay(level) * 1000
                &&& exists|k: int|
                    0 <= k < final(self).encryption_service.pool().len() && {
                        let e = #[trigger] final(self).encryption_service.pool()[k];
                        &&& e.0.id.0@ == res.original_hash.0@
                        &&& e.0.submission_time == now
                        &&& res.encrypted_hash.0@ == keccak256(encrypted_hash_preimage(e.0))
                        &&& res.execution_schedule.ordering_priority == priority_score(e.0, now)
                        &&& aes256gcm_open(old(self).encryption_service.key(), e.1@, e.0.encrypted_data@) == Some(
                            tx_data@,
                        )
                    }
            },
    {
        match validate_transaction(transaction) {
            Ok(()) => {},
            Err(e) => return Err(e),
        }
        match self.encryption_service.validate_transaction(transaction) {
            Ok(()) => {},
            Err(e) => return Err(MEVShieldError::Encryption(e)),
        }
        let sealed = match self.encryption_service.encrypt_at(tx_data, now) {
            Ok(c) => c,
            Err(e) => return Err(MEVShieldError::Encryption(e)),
        };
        let ghost c = sealed;
        let transaction_id = crate::clock::new_uuid_v4();
        let r = self.protect_sealed_at(transaction, sealed, transaction_id, level, now);
        proof {
            if old(self).encryption_service.pool().len() < old(self).encryption_service.configuration().max_pool_size {
                let e = choose|e: EncryptedTransaction|
                    #[trigger] record_of(e, *transaction, c.data@, now) && pool_stored(
                        old(self).encryption_service.pool(),
                        self.encryption_service.pool(),
                        e,
                        c.nonce,
                    ) && if suspicious(*transaction) {
                        r matches Err(MEVShieldError::MEVDetected(d)) && d.is_mev_detected && d.mev_type == Some(
                            MEVType::Unknown,
                        ) && d.confidence == 85
                    } else {
                        r matches Ok(res) && res.transaction_id == transaction_id && res.original_hash.0@
                            == keccak256(tx_hash_preimage(*transaction)) && res.protection_applied && !res.mev_detected
                            && res.estimated_savings == transaction.value / 1000
                            && res.execution_schedule.time_lock_duration == level_delay(level)
                            && res.execution_schedule.estimated_execution_time == now + level_delay(level) * 1000
                            && res.encrypted_hash.0@ == keccak256(encrypted_hash_preimage(e))
                            && res.execution_schedule.ordering_priority == priority_score(e, now)
                    };
                let pool = self.encryption_service.pool();
                let k: int = if pool_has(old(self).encryption_service.pool(), e.id.0@) {
                    choose|j: int|
                        0 <= j < old(self).encryption_service.pool().len() && (#[trigger] old(
                            self,
                        ).encryption_service.pool()[j]).0.id.0@ == e.id.0@
                } else {
                    old(self).encryption_service.pool().len() as int
                };
                assert(same_encrypted(pool[k].0, e) && pool[k].1 == c.nonce);
                assert(encrypted_hash_preimage(pool[k].0) == encrypted_hash_preimage(e));
                assert(priority_score(pool[k].0, now) == priority_score(e, now));
            }
        }
        r
    }

    /// Opens the pooled transactions that are ready at `now`, higher priority first, then
    /// earlier, and takes each out of the pool; one that does not open is skipped. Each
    /// result is the serialized transaction that a pooled entry was sealed from.
    pub fn decrypt_ready_transactions_at(&mut self, block_height: u64, now: i64) -> (r: Result<
        Vec<Vec<u8>>,
        MEVShieldError,
    >)
        requires
            old(self).encryption_service.wf(),
            old(self).encryption_service.configuration().minimum_age * 1000 <= i64::MAX,
        ensures
            final(self).encryption_service.wf(),
            final(self).encryption_service.configuration() == old(self).encryption_service.configuration(),
            final(self).encryption_service.key() == old(self).encryption_service.key(),
            final(self).ordering_service == old(self).ordering_service,
            final(self).detection_service == old(self).detection_service,
            r matches Ok(v) && forall|j: int|
                0 <= j < v@.len() ==> sealed_in(
                    old(self).encryption_service.pool(),
                    old(self).encryption_service.key(),
                    #[trigger] v@[j]@,
                ),
            r matches Ok(v) && exists|idx: Seq<int>|
                #[trigger] crate::encryption::ready_order(
                    idx,
                    old(self).encryption_service.pool(),
                    now,
                    old(self).encryption_service.configuration().minimum_age as int * 1000,
                ) && payload_views(v@) == if shares_suffice(old(self).encryption_service) {
                    opened_payloads(old(self).encryption_service.pool(), old(self).encryption_service.key(), idx)
                } else {
                    Seq::<Seq<u8>>::empty()
                },
    {
        let ghost pool0 = self.encryption_service.pool();
        let ghost key = self.encryption_service.key();
        let ghost enough = shares_suffice(self.encryption_service);
        let ready = match self.encryption_service.get_ready_transactions_at(block_height, now) {
            Ok(v) => v,
            Err(e) => return Err(e),
        };
        let ghost idx = choose|idx: Seq<int>|
            #[trigger] crate::encryption::ready_order(
                idx,
                pool0,
                now,
                self.encryption_service.configuration().minimum_age as int * 1000,
            ) && ready@.len() == idx.len() && forall|k: int|
                0 <= k < idx.len() ==> #[trigger] same_encrypted(ready@[k], pool0[idx[k]].0);
        proof {
            self.encryption_service.lemma_unique_ids();
            assert forall|c: int| 0 <= c < pool0.len() implies pool0.contains(#[trigger] pool0[c]) by {
                assert(pool0[c] == pool0[c]);
            }
        }
        let mut out: Vec<Vec<u8>> = Vec::new();
        let mut i: usize = 0;
        while i < ready.len()
            invariant
                i <= ready@.len(),
                ready@.len() == idx.len(),
                forall|a: int| 0 <= a < idx.len() ==> 0 <= #[trigger] idx[a] < pool0.len(),
                forall|k: int| 0 <= k < idx.len() ==> #[trigger] same_encrypted(ready@[k], pool0[idx[k]].0),
                forall|a: int, b: int|
                    0 <= a < b < pool0.len() ==> (#[trigger] pool0[a]).0.id.0@ != (#[trigger] pool0[b]).0.id.0@,
                self.encryption_service.wf(),
                self.encryption_service.key() == key,
                self.encryption_service.configuration() == old(self).encryption_service.configuration(),
                self.encryption_service.configuration().minimum_age * 1000 <= i64::MAX,
                self.ordering_service == old(self).ordering_service,
                self.detection_service == old(self).detection_service,
                key == old(self).encryption_service.key(),
                pool0 == old(self).encryption_service.pool(),
                forall|c: int|
                    0 <= c < self.encryption_service.pool().len() ==> pool0.contains(
                        #[trigger] self.encryption_service.pool()[c],
                    ),
                forall|j: int| 0 <= j < out@.len() ==> sealed_in(pool0, key, #[trigger] out@[j]@),
                enough == shares_suffice(self.encryption_service),
                crate::encryption::ready_order(
                    idx,
                    pool0,
                    now,
                    self.encryption_service.configuration().minimum_age as int * 1000,
                ),
                forall|k: int|
                    i <= k < idx.len() ==> self.encryption_service.pool().contains(#[trigger] pool0[idx[k]]),
                enough ==> payload_views(out@) == opened_payloads(pool0, key, idx.subrange(0, i as int)),
                !enough ==> out@.len() == 0,
            decreases ready@.len() - i,
        {
            let ghost cur = self.encryption_service.pool();
            let tx = crate::encryption::copy_encrypted(&ready[i]);
            let ghost minage = self.encryption_service.configuration().minimum_age as int * 1000;
            let ghost here = pool0[idx[i as int]];
            proof {
                assert(same_encrypted(ready@[i as int], pool0[idx[i as int]].0));
                assert(self.encryption_service.pool().contains(pool0[idx[i as int]]));
                assert(crate::encryption::ready_at(here.0, now, minage));
                assert(crate::encryption::ready_at(tx, now, minage));
                assert(idx.subrange(0, i + 1).drop_last() =~= idx.subrange(0, i as int));
            }
            let ghost c = choose|c: int| 0 <= c < cur.len() && cur[c] == here;
            proof {
                assert(crate::encryption::pool_has(cur, tx.id.0@));
            }
            match self.encryption_service.decrypt_transaction_at(tx, now) {
                Ok(p) => {
                    proof {
                        let k = choose|k: int|
                            0 <= k < cur.len() && (#[trigger] cur[k]).0.id.0@ == tx.id.0@ && aes256gcm_open(
                                key,
                                cur[k].1@,
                                tx.encrypted_data@,
                            ) == Some(p@) && self.encryption_service.pool() == cur.remove(k);
                        assert(pool0.contains(cur[k]));
                        let a = choose|a: int| 0 <= a < pool0.len() && pool0[a] == cur[k];
                        assert(pool0[a].0.id.0@ == pool0[idx[i as int]].0.id.0@);
                        assert(a == idx[i as int]);
                        assert(aes256gcm_open(key, pool0[a].1@, pool0[a].0.encrypted_data@) == Some(p@));
                        assert forall|c: int| 0 <= c < self.encryption_service.pool().len() implies pool0.contains(
                            #[trigger] self.encryption_service.pool()[c],
                        ) by {
                            if c < k {
                                assert(self.encryption_service.pool()[c] == cur[c]);
                            } else {
                                assert(self.encryption_service.pool()[c] == cur[c + 1]);
                            }
                        }
                    }
                    proof {
                        assert(sealed_in(pool0, key, p@));
                    }
                    let ghost before = out@;
                    out.push(p);
                    proof {
                        let k = choose|k: int|
                            0 <= k < cur.len() && (#[trigger] cur[k]).0.id.0@ == tx.id.0@ && aes256gcm_open(
                                key,
                                cur[k].1@,
                                tx.encrypted_data@,
                            ) == Some(p@) && self.encryption_service.pool() == cur.remove(k);
                        let a = choose|a: int| 0 <= a < pool0.len() && pool0[a] == cur[k];
                        assert(pool0[a].0.id.0@ == pool0[idx[i as int]].0.id.0@);
                        assert(a == idx[i as int]);
                        assert(payload_views(out@) =~= payload_views(before).push(p@));
                        assert forall|q: int|
                            i + 1 <= q < idx.len() implies self.encryption_service.pool().contains(
                            #[trigger] pool0[idx[q]],
                        ) by {
                            assert(cur.contains(pool0[idx[q]]));
                            let w = choose|w: int| 0 <= w < cur.len() && cur[w] == pool0[idx[q]];
                            assert(idx[q] != idx[i as int]);
                            assert(pool0[idx[q]].0.id.0@ != pool0[idx[i as int]].0.id.0@);
                            assert(w != k);
                            if w < k {
                                assert(self.encryption_service.pool()[w] == cur[w]);
                            } else {
                                assert(self.encryption_service.pool()[w - 1] == cur[w]);
                            }
                        }
                    }
                },
                Err(_) => {
                    proof {
                        assert(cur[c].0.id.0@ == tx.id.0@);
                        if enough {
                            assert(aes256gcm_open(key, cur[c].1@, tx.encrypted_data@) is None);
                        }
                    }
                },
            }
            i = i + 1;
        }
        proof {
            assert(idx.subrange(0, idx.len() as int) =~= idx);
            assert(enough == shares_suffice(old(self).encryption_service));
            if !enough {
                assert(payload_views(out@) =~= Seq::<Seq<u8>>::empty());
            }
        }
        Ok(out)
    }

    /// Orders decrypted transactions fairly at `now` and screens the ordered batch: a batch
    /// with a suspicious transaction is refused with the patterns found, else the ordered
    /// transactions are returned.
    pub fn process_transaction_batch_at(&self, transactions: Vec<Transaction>, now: i64) -> (r: Result<
        Vec<Transaction>,
        MEVShieldError,
    >)
        requires
            self.ordering_service.vdf_params.difficulty == 0 || self.ordering_service.vdf_params.difficulty >= 10,
            self.ordering_service.vdf_params.difficulty == 0 || be_value(self.ordering_service.vdf_params.modulus@)
                > 0,
            self.ordering_service.vdf_params.batch_size > 0,
        ensures
            (exists|i: int| 0 <= i < transactions@.len() && suspicious(#[trigger] transactions@[i])) <==> (r matches Err(
                MEVShieldError::BatchMEVDetected(b),
            ) && !b.is_mev_free && b.detected_patterns@.len() > 0 && forall|k: int|
                0 <= k < b.detected_patterns@.len() ==> #[trigger] b.detected_patterns@[k] == MEVType::Unknown),
            r is Err ==> r->Err_0 is BatchMEVDetected,
            r matches Ok(v) ==> exists|hs: Seq<Seq<u8>>, perm: Seq<int>|
                #![trigger sorted_perm(perm, delay_values(hs, self.ordering_service.vdf_params.difficulty, be_value(self.ordering_service.vdf_params.modulus@)), submission_times(transactions@))]
                hs.len() == transactions@.len() && (forall|i: int|
                    0 <= i < hs.len() ==> tx_commitment_ok(transactions@[i], #[trigger] hs[i])) && sorted_perm(
                    perm,
                    delay_values(
                        hs,
                        self.ordering_service.vdf_params.difficulty,
                        be_value(self.ordering_service.vdf_params.modulus@),
                    ),
                    submission_times(transactions@),
                ) && v@.len() == perm.len() && forall|k: int|
                    0 <= k < perm.len() ==> #[trigger] same_tx(v@[k], transactions@[perm[k]]),
    {
        let ghost input = transactions@;
        let ordered = match self.ordering_service.order_transactions_at(transactions, now) {
            Ok(v) => v,
            Err(e) => return Err(MEVShieldError::OrderingService(e)),
        };
        let ghost (hs, perm) = choose|hs: Seq<Seq<u8>>, perm: Seq<int>|
            #![trigger sorted_perm(perm, delay_values(hs, self.ordering_service.vdf_params.difficulty, be_value(self.ordering_service.vdf_params.modulus@)), submission_times(input))]
            hs.len() == input.len() && (forall|i: int| 0 <= i < hs.len() ==> tx_commitment_ok(input[i], #[trigger] hs[i]))
                && sorted_perm(
                perm,
                delay_values(
                    hs,
                    self.ordering_service.vdf_params.difficulty,
                    be_value(self.ordering_service.vdf_params.modulus@),
                ),
                submission_times(input),
            ) && ordered@.len() == perm.len() && forall|k: int|
                0 <= k < perm.len() ==> #[trigger] same_tx(ordered@[k], input[perm[k]]);
        let analysis = match self.detection_service.analyze_transaction_batch(ordered.as_slice()) {
            Ok(a) => a,
            Err(e) => return Err(e),
        };
        proof {
            lemma_no_suspects(ordered@);
            let n = input.len();
            assert(delay_values(
                hs,
                self.ordering_service.vdf_params.difficulty,
                be_value(self.ordering_service.vdf_params.modulus@),
            ).len() == n);
            if exists|i: int| 0 <= i < input.len() && suspicious(#[trigger] input[i]) {
                let i = choose|i: int| 0 <= i < input.len() && suspicious(#[trigger] input[i]);
                lemma_perm_covers(perm, n, i);
                let a = choose|a: int| 0 <= a < n && perm[a] == i;
                assert(same_tx(ordered@[a], input[perm[a]]));
                assert(suspicious(ordered@[a]));
            } else {
                assert forall|k: int| 0 <= k < ordered@.len() implies !suspicious(#[trigger] ordered@[k]) by {
                    assert(same_tx(ordered@[k], input[perm[k]]));
                    assert(!suspicious(input[perm[k]]));
                }
            }
        }
        if !analysis.is_mev_free {
            return Err(MEVShieldError::BatchMEVDetected(analysis));
        }
        Ok(ordered)
    }

    /// The status of a protected transaction. No store of executions is kept, so every
    /// transaction is reported pending, with no block yet, no MEV, no savings, and
    /// protected by encryption and fair ordering.
    pub fn get_transaction_status(&self, transaction_id: u128) -> (r: Result<TransactionStatus, MEVShieldError>)
        ensures
            r matches Ok(s) && s.id == transaction_id && s.status == ExecutionStatus::Pending && s.block_number is None
                && s.block_hash is None && s.transaction_hash is None && !s.protection_details.mev_detected
                && s.protection_details.savings_amount == 0 && s.protection_details.execution_time is None
                && s.protection_details.protection_methods@ == seq![
                ProtectionMethod::Encryption,
                ProtectionMethod::FairOrdering,
            ],
    {
        let mut methods: Vec<ProtectionMethod> = Vec::new();
        methods.push(ProtectionMethod::Encryption);
        methods.push(ProtectionMethod::FairOrdering);
        Ok(
            TransactionStatus {
                id: transaction_id,
                status: ExecutionStatus::Pending,
                block_number: None,
                block_hash: None,
                transaction_hash: None,
                protection_details: ProtectionDetails {
                    mev_detected: false,
                    savings_amount: 0,
                    execution_time: None,
                    protection_methods: methods,
                },
            },
        )
    }
}

} // verus!

//! Encrypted mempool: AES-256-GCM sealing of serialized transactions (with `ring`), time
//! locks and priorities, readiness for decryption, share collection and the ordering of
//! ready transactions. Times are milliseconds since the epoch.
use vstd::prelude::*;
use ring::aead::{Aad, LessSafeKey, Nonce, UnboundKey, AES_256_GCM};
use ring::rand::SecureRandom;
use crate::config::EncryptionConfig;
use crate::error::{EncryptionError, MEVShieldError};
use crate::types::{
    hex_encode_spec, keccak256, priority_rank, transaction_type_of, tx_hash_preimage, EncryptedTransaction,
    Priority, TimeLock, Transaction, TransactionType, TxHash,
};

verus! {

/// The AES-256-GCM sealing (no additional data) of `plaintext` under `key` and `nonce`:
/// the ciphertext followed by the 16-byte tag.
pub uninterp spec fn aes256gcm_seal(key: Seq<u8>, nonce: Seq<u8>, plaintext: Seq<u8>) -> Seq<u8>;

/// The AES-256-GCM opening of `data` under `key` and `nonce`: the plaintext, or nothing
/// where the tag does not authenticate.
pub uninterp spec fn aes256gcm_open(key: Seq<u8>, nonce: Seq<u8>, data: Seq<u8>) -> Option<Seq<u8>>;

/// The most bytes that `ring` seals under one AES-GCM nonce.
pub open spec fn aes_gcm_max_input() -> nat {
    68_719_476_704
}

/// `ring::aead::LessSafeKey::seal_in_place_append_tag` with AES-256-GCM, `key`, `nonce`
/// and no additional data. Stated: the result is the named sealing, the input followed by
/// a 16-byte tag, and opening it under the same key and nonce gives the input back (AEAD
/// correctness); it succeeds whenever the input is within `ring`'s limit per nonce (the
/// only check `ring` makes before sealing with a 32-byte key).
#[verifier::external_body]
fn aes_gcm_seal(key: &[u8; 32], nonce: [u8; 12], data: &[u8]) -> (r: Result<Vec<u8>, String>)
    ensures
        data@.len() <= aes_gcm_max_input() ==> r is Ok,
        r matches Ok(c) ==> c@ == aes256gcm_seal(key@, nonce@, data@) && c@.len() == data@.len() + 16,
        r matches Ok(c) ==> aes256gcm_open(key@, nonce@, c@) == Some(data@),
{
    let unbound = UnboundKey::new(&AES_256_GCM, key).map_err(|e| format!("Key creation failed: {:?}", e))?;
    let mut out = data.to_vec();
    LessSafeKey::new(unbound).seal_in_place_append_tag(Nonce::assume_unique_for_key(nonce), Aad::empty(), &mut out)
        .map_err(|e| format!("Encryption failed: {:?}", e))?;
    Ok(out)
}

/// `ring::aead::LessSafeKey::open_in_place` with AES-256-GCM, `key`, `nonce` and no
/// additional data. Stated: the result is the named opening: the plaintext where the tag
/// authenticates, an error where it does not.
#[verifier::external_body]
fn aes_gcm_open(key: &[u8; 32], nonce: [u8; 12], data: &[u8]) -> (r: Result<Vec<u8>, String>)
    ensures
        r is Ok <==> aes256gcm_open(key@, nonce@, data@) is Some,
        r matches Ok(p) ==> aes256gcm_open(key@, nonce@, data@) == Some(p@),
{
    let unbound = UnboundKey::new(&AES_256_GCM, key).map_err(|e| format!("Key creation failed: {:?}", e))?;
    let mut buf = data.to_vec();
    let plain = LessSafeKey::new(unbound).open_in_place(Nonce::assume_unique_for_key(nonce), Aad::empty(), &mut buf)
        .map_err(|e| format!("Decryption failed: {:?}", e))?;
    Ok(plain.to_vec())
}

/// Twelve random bytes from `ring::rand::SystemRandom::fill`; nothing is stated of them.
#[verifier::external_body]
fn random_nonce() -> (r: Result<[u8; 12], String>) {
    let mut nonce = [0u8; 12];
    ring::rand::SystemRandom::new().fill(&mut nonce).map_err(|e| format!("Nonce generation failed: {:?}", e))?;
    Ok(nonce)
}

/// Public key of a validator.
#[derive(Debug, Clone, Copy)]
pub struct PublicKey(pub [u8; 32]);

/// Private key share for threshold decryption.
#[derive(Debug, Clone, Copy)]
pub struct PrivateKeyShare {
    pub index: u32,
    pub key: [u8; 32],
}

/// Sealed bytes with their nonce; the time is in milliseconds.
#[derive(Debug, Clone)]
pub struct Ciphertext {
    pub data: Vec<u8>,
    pub nonce: [u8; 12],
    pub timestamp: i64,
}

/// A decryption share from a validator.
#[derive(Debug, Clone)]
pub struct DecryptionShare {
    pub validator_index: u32,
    pub data: Vec<u8>,
    pub signature: Vec<u8>,
}

/// The all-zero key of 32 bytes.
pub open spec fn zero_key() -> Seq<u8> {
    Seq::new(32, |i: int| 0u8)
}

/// Threshold scheme; the shares are not combined yet, a master key seals and opens.
pub struct ThresholdCrypto {
    threshold: u32,
    total_shares: u32,
    master_key: [u8; 32],
}

impl ThresholdCrypto {
    /// The key that seals and opens.
    pub closed spec fn key(&self) -> Seq<u8> {
        self.master_key@
    }

    /// The threshold of shares.
    pub closed spec fn spec_threshold(&self) -> u32 {
        self.threshold
    }

    /// A scheme for `threshold` of `total_shares`; a threshold above the total is refused
    /// as an invalid share of validator 0.
    pub fn new(threshold: u32, total_shares: u32) -> (r: Result<Self, EncryptionError>)
        ensures
            if threshold > total_shares {
                r matches Err(e) && e == (EncryptionError::InvalidShare { validator_id: 0 })
            } else {
                r matches Ok(c) && c.spec_threshold() == threshold && c.key() == zero_key()
            },
    {
        if threshold > total_shares {
            return Err(EncryptionError::InvalidShare { validator_id: 0 });
        }
        let master_key = [0u8; 32];
        assert(master_key@ =~= zero_key());
        Ok(ThresholdCrypto { threshold, total_shares, master_key })
    }

    /// Seals `data` under the master key and `nonce`, stamped `now`: within `ring`'s
    /// limit per nonce the sealing succeeds.
    pub fn seal_with_nonce(&self, data: &[u8], nonce: [u8; 12], now: i64) -> (r: Result<Ciphertext, EncryptionError>)
        ensures
            data@.len() <= aes_gcm_max_input() ==> r is Ok,
            r matches Ok(c) ==> c.nonce@ == nonce@ && c.data@ == aes256gcm_seal(self.key(), nonce@, data@)
                && c.data@.len() == data@.len() + 16 && c.timestamp == now && aes256gcm_open(
                self.key(),
                nonce@,
                c.data@,
            ) == Some(data@),
            r matches Err(e) ==> e is CryptoError,
    {
        match aes_gcm_seal(&self.master_key, nonce, data) {
            Ok(sealed) => Ok(Ciphertext { data: sealed, nonce, timestamp: now }),
            Err(m) => Err(EncryptionError::CryptoError(m)),
        }
    }

    /// Seals `data` under the master key and a fresh random nonce, stamped `now`; the
    /// sealing itself is `seal_with_nonce` with the drawn nonce.
    pub fn encrypt_at(&self, data: &[u8], now: i64) -> (r: Result<Ciphertext, EncryptionError>)
        ensures
            r matches Ok(c) ==> c.data@ == aes256gcm_seal(self.key(), c.nonce@, data@) && c.data@.len() == data@.len()
                + 16 && c.timestamp == now && aes256gcm_open(self.key(), c.nonce@, c.data@) == Some(data@),
            r matches Err(e) ==> e is CryptoError,
    {
        let nonce = match random_nonce() {
            Ok(n) => n,
            Err(m) => return Err(EncryptionError::CryptoError(m)),
        };
        self.seal_with_nonce(data, nonce, now)
    }

    /// Seals `data` now.
    pub fn encrypt(&self, data: &[u8]) -> (r: Result<Ciphertext, EncryptionError>)
        ensures
            r matches Ok(c) ==> c.data@ == aes256gcm_seal(self.key(), c.nonce@, data@) && c.data@.len() == data@.len()
                + 16 && aes256gcm_open(self.key(), c.nonce@, c.data@) == Some(data@),
            r matches Err(e) ==> e is CryptoError,
    {
        let now = crate::clock::now_millis();
        self.encrypt_at(data, now)
    }

    /// Opens a ciphertext with the master key; the shares are not used.
    pub fn decrypt(&self, ciphertext: &Ciphertext, shares: &[DecryptionShare]) -> (r: Result<Vec<u8>, EncryptionError>)
        ensures
            r matches Ok(p) ==> aes256gcm_open(self.key(), ciphertext.nonce@, ciphertext.data@) == Some(p@),
            r is Err ==> aes256gcm_open(self.key(), ciphertext.nonce@, ciphertext.data@) is None,
    {
        match aes_gcm_open(&self.master_key, ciphertext.nonce, ciphertext.data.as_slice()) {
            Ok(p) => Ok(p),
            Err(m) => Err(EncryptionError::CryptoError(m)),
        }
    }
}

/// Decrypting what was encrypted gives it back: a ciphertext that `encrypt` made for
/// `plaintext` opens to `plaintext`, so `decrypt` returns it.
pub proof fn lemma_encrypt_decrypt_roundtrip(key: Seq<u8>, c: Ciphertext, plaintext: Seq<u8>, r: Result<Vec<u8>, EncryptionError>)
    requires
        aes256gcm_open(key, c.nonce@, c.data@) == Some(plaintext),
        r matches Ok(p) ==> aes256gcm_open(key, c.nonce@, c.data@) == Some(p@),
        r is Err ==> aes256gcm_open(key, c.nonce@, c.data@) is None,
    ensures
        r matches Ok(p) && p@ == plaintext,
{
}

/// The public key of validator `i`: `i` (taken as a byte) followed by 31 zero bytes.
pub open spec fn validator_key(i: int) -> Seq<u8> {
    Seq::new(32, |k: int| if k == 0 { i as u8 } else { 0u8 })
}

/// Delay before an encrypted transaction may be decrypted, by type, in milliseconds.
pub open spec fn time_lock_delay(t: TransactionType) -> int {
    match t {
        TransactionType::DEXTrade => 10_000,
        TransactionType::Transfer => 2_000,
        TransactionType::ContractCall => 15_000,
        _ => 10_000,
    }
}

/// Priority by gas price: below 10 gwei low, below 50 gwei medium, else high.
pub open spec fn gas_priority(gas_price: u128) -> Priority {
    let gwei = gas_price / 1_000_000_000;
    if gwei < 10 {
        Priority::Low
    } else if gwei < 50 {
        Priority::Medium
    } else {
        Priority::High
    }
}

/// The failure, if any, of the basic checks of a transaction: an empty call to the zero
/// address, or a gas limit above 30 million.
pub open spec fn validation_failure(tx: Transaction) -> Option<Seq<char>> {
    if (forall|i: int| 0 <= i < 20 ==> tx.to.0@[i] == 0) && tx.data@.len() == 0 {
        Some("Empty transaction"@)
    } else if tx.gas > 30_000_000 {
        Some("Gas limit too high"@)
    } else {
        None
    }
}

/// An encrypted transaction may be decrypted at `now`: its time lock, if any, has passed and
/// it is at least `min_age_ms` old.
pub open spec fn ready_at(tx: EncryptedTransaction, now: i64, min_age_ms: int) -> bool {
    &&& (tx.time_lock matches Some(tl) ==> now >= tl.unlock_time)
    &&& now as int - tx.submission_time as int >= min_age_ms
}

/// `a` goes before `b` among ready transactions: higher priority first, then earlier.
pub open spec fn ready_before(a: EncryptedTransaction, b: EncryptedTransaction) -> bool {
    priority_rank(a.priority) > priority_rank(b.priority) || (priority_rank(a.priority) == priority_rank(b.priority)
        && a.submission_time < b.submission_time)
}

/// Two encrypted transactions hold the same fields.
pub open spec fn same_encrypted(a: EncryptedTransaction, b: EncryptedTransaction) -> bool {
    &&& a.id.0@ == b.id.0@
    &&& a.encrypted_data@ == b.encrypted_data@
    &&& a.submission_time == b.submission_time
    &&& a.time_lock == b.time_lock
    &&& a.priority == b.priority
    &&& a.gas_price == b.gas_price
    &&& a.chain_id == b.chain_id
}

/// A copy of an encrypted transaction.
pub(crate) fn copy_encrypted(tx: &EncryptedTransaction) -> (r: EncryptedTransaction)
    ensures
        same_encrypted(r, *tx),
{
    let data = tx.encrypted_data.clone();
    assert(data@ =~= tx.encrypted_data@);
    EncryptedTransaction {
        id: tx.id,
        encrypted_data: data,
        submission_time: tx.submission_time,
        time_lock: tx.time_lock,
        priority: tx.priority,
        gas_price: tx.gas_price,
        chain_id: tx.chain_id,
    }
}

/// The validator public keys `0 .. count`.
pub fn initialize_validator_keys(count: usize) -> (keys: Vec<PublicKey>)
    ensures
        keys@.len() == count,
        forall|i: int| 0 <= i < count ==> (#[trigger] keys@[i]).0@ == validator_key(i),
{
    let mut keys: Vec<PublicKey> = Vec::new();
    let mut i: usize = 0;
    while i < count
        invariant
            i <= count,
            keys@.len() == i,
            forall|k: int| 0 <= k < i ==> (#[trigger] keys@[k]).0@ == validator_key(k),
        decreases count - i,
    {
        let mut key = [0u8; 32];
        key[0] = i as u8;
        assert(key@ =~= validator_key(i as int));
        keys.push(PublicKey(key));
        i = i + 1;
    }
    keys
}

/// The encrypted mempool: sealed transactions (each with the nonce it was sealed under),
/// the threshold scheme, the validators' keys and the shares collected.
pub struct EncryptedMempoolService {
    config: EncryptionConfig,
    encrypted_transactions: Vec<(EncryptedTransaction, [u8; 12])>,
    threshold_scheme: ThresholdCrypto,
    validator_keys: Vec<PublicKey>,
    decryption_shares: Vec<(TxHash, Vec<DecryptionShare>)>,
}

/// Whether a transaction with id `id` is in the pool.
pub open spec fn pool_has(pool: Seq<(EncryptedTransaction, [u8; 12])>, id: Seq<u8>) -> bool {
    exists|i: int| 0 <= i < pool.len() && (#[trigger] pool[i]).0.id.0@ == id
}

/// `e` is the record of `tx` sealed to `data` at `now`: its hash, the sealed bytes, the
/// time lock of its type, its priority by gas price, its gas price and chain.
pub open spec fn record_of(e: EncryptedTransaction, tx: Transaction, data: Seq<u8>, now: i64) -> bool {
    &&& e.id.0@ == keccak256(tx_hash_preimage(tx))
    &&& e.encrypted_data@ == data
    &&& e.submission_time == now
    &&& e.time_lock == Some(
        TimeLock { unlock_time: (now + time_lock_delay(transaction_type_of(tx.data@))) as i64, created_at: now },
    )
    &&& e.priority == gas_priority(tx.gas_price)
    &&& e.gas_price == tx.gas_price
    &&& e.chain_id == tx.chain_id
}

/// `new` is `old` with `e` (and `nonce`) stored: in place of the entry with its id, or
/// after all others where there is none.
pub open spec fn pool_stored(
    old: Seq<(EncryptedTransaction, [u8; 12])>,
    new: Seq<(EncryptedTransaction, [u8; 12])>,
    e: EncryptedTransaction,
    nonce: [u8; 12],
) -> bool {
    if pool_has(old, e.id.0@) {
        &&& new.len() == old.len()
        &&& forall|j: int|
            0 <= j < old.len() ==> if (#[trigger] old[j]).0.id.0@ == e.id.0@ {
                same_encrypted(new[j].0, e) && new[j].1 == nonce
            } else {
                new[j] == old[j]
            }
    } else {
        &&& new.len() == old.len() + 1
        &&& forall|j: int| 0 <= j < old.len() ==> new[j] == #[trigger] old[j]
        &&& same_encrypted(new[old.len() as int].0, e)
        &&& new[old.len() as int].1 == nonce
    }
}

impl EncryptedMempoolService {
    /// The configuration.
    pub closed spec fn configuration(&self) -> EncryptionConfig {
        self.config
    }

    /// The sealed transactions in the pool with their nonces.
    pub closed spec fn pool(&self) -> Seq<(EncryptedTransaction, [u8; 12])> {
        self.encrypted_transactions@
    }

    /// The key that seals the pool.
    pub closed spec fn key(&self) -> Seq<u8> {
        self.threshold_scheme.master_key@
    }

    /// How many validators there are.
    pub closed spec fn validator_count(&self) -> nat {
        self.validator_keys@.len()
    }

    /// Ids in the pool are unique.
    pub closed spec fn wf(&self) -> bool {
        forall|i: int, j: int|
            0 <= i < j < self.encrypted_transactions@.len() ==> self.encrypted_transactions@[i].0.id.0@
                != self.encrypted_transactions@[j].0.id.0@
    }

    /// Ids in a well-formed pool are unique.
    pub proof fn lemma_unique_ids(&self)
        requires
            self.wf(),
        ensures
            forall|a: int, b: int|
                0 <= a < b < self.pool().len() ==> (#[trigger] self.pool()[a]).0.id.0@ != (#[trigger] self.pool()[b]).0.id.0@,
    {
    }

    /// The shares collected so far, by transaction id.
    pub closed spec fn shares(&self) -> Seq<(TxHash, Vec<DecryptionShare>)> {
        self.decryption_shares@
    }

    /// A service for the configuration; a threshold above the validator count is refused.
    pub fn new(config: EncryptionConfig) -> (r: Result<Self, MEVShieldError>)
        ensures
            if config.threshold > config.total_validators {
                r matches Err(e) && e == MEVShieldError::Encryption(EncryptionError::InvalidShare { validator_id: 0 })
            } else {
                r matches Ok(s) && s.configuration() == config && s.pool().len() == 0 && s.validator_count()
                    == config.total_validators && s.wf()
            },
    {
        let threshold_scheme = match ThresholdCrypto::new(config.threshold, config.total_validators) {
            Ok(t) => t,
            Err(e) => return Err(MEVShieldError::Encryption(e)),
        };
        let validator_keys = initialize_validator_keys(config.total_validators as usize);
        Ok(
            EncryptedMempoolService {
                config,
                encrypted_transactions: Vec::new(),
                threshold_scheme,
                validator_keys,
                decryption_shares: Vec::new(),
            },
        )
    }

    /// Seals `data` under the pool's key and a fresh random nonce, stamped `now`.
    pub fn encrypt_at(&self, data: &[u8], now: i64) -> (r: Result<Ciphertext, EncryptionError>)
        ensures
            r matches Ok(c) ==> c.data@ == aes256gcm_seal(self.key(), c.nonce@, data@) && c.timestamp == now
                && aes256gcm_open(self.key(), c.nonce@, c.data@) == Some(data@),
            r matches Err(e) ==> e is CryptoError,
    {
        self.threshold_scheme.encrypt_at(data, now)
    }

    /// How many transactions are in the pool.
    pub fn pool_size(&self) -> (n: usize)
        ensures
            n == self.pool().len(),
    {
        self.encrypted_transactions.len()
    }

    /// The basic checks of a transaction.
    pub fn validate_transaction(&self, tx: &Transaction) -> (r: Result<(), EncryptionError>)
        ensures
            match validation_failure(*tx) {
                None => r is Ok,
                Some(m) => r matches Err(EncryptionError::CryptoError(s)) && s@ == m,
            },
    {
        if tx.to.is_zero() && tx.data.len() == 0 {
            return Err(EncryptionError::CryptoError(String::from_str("Empty transaction")));
        }
        if tx.gas > 30_000_000 {
            return Err(EncryptionError::CryptoError(String::from_str("Gas limit too high")));
        }
        Ok(())
    }

    /// The time lock of a transaction sealed at `now`: created now, unlocking after the
    /// delay of its type.
    pub fn calculate_time_lock_at(&self, tx: &Transaction, now: i64) -> (r: Option<TimeLock>)
        requires
            now <= i64::MAX - 15_000,
        ensures
            r matches Some(tl) && tl.created_at == now && tl.unlock_time == now + time_lock_delay(
                transaction_type_of(tx.data@),
            ),
    {
        let delay: i64 = match tx.transaction_type() {
            TransactionType::DEXTrade => 10_000,
            TransactionType::Transfer => 2_000,
            TransactionType::ContractCall => 15_000,
            _ => 10_000,
        };
        Some(TimeLock { unlock_time: now + delay, created_at: now })
    }

    /// The priority of a transaction by gas price.
    pub fn calculate_priority(&self, tx: &Transaction) -> (p: Priority)
        ensures
            p == gas_priority(tx.gas_price),
    {
        let gwei = tx.gas_price / 1_000_000_000;
        if gwei < 10 {
            Priority::Low
        } else if gwei < 50 {
            Priority::Medium
        } else {
            Priority::High
        }
    }

    /// Whether an encrypted transaction may be decrypted at `now`.
    pub fn is_ready_for_decryption_at(&self, encrypted_tx: &EncryptedTransaction, block_height: u64, now: i64) -> (r: Result<bool, EncryptionError>)
        requires
            self.configuration().minimum_age * 1000 <= i64::MAX,
        ensures
            r matches Ok(b) && b == ready_at(*encrypted_tx, now, self.configuration().minimum_age as int * 1000),
    {
        if let Some(tl) = &encrypted_tx.time_lock {
            if now < tl.unlock_time {
                return Ok(false);
            }
        }
        let age: i128 = now as i128 - encrypted_tx.submission_time as i128;
        let min_age: i128 = self.config.minimum_age as i128 * 1000;
        if age < min_age {
            return Ok(false);
        }
        Ok(true)
    }

    /// The share that validator `validator_index` gives: the index as 32 bytes and a zero
    /// signature of 64 bytes.
    pub fn request_decryption_share(&self, validator_key: &PublicKey, encrypted_tx: &EncryptedTransaction, validator_index: u32) -> (r: Result<DecryptionShare, EncryptionError>)
        ensures
            r matches Ok(s) && s.validator_index == validator_index && s.data@ == Seq::new(
                32,
                |k: int| validator_index as u8,
            ) && s.signature@ == Seq::new(64, |k: int| 0u8),
    {
        let b = validator_index as u8;
        let mut data: Vec<u8> = Vec::new();
        let mut signature: Vec<u8> = Vec::new();
        let mut k: usize = 0;
        while k < 64
            invariant
                k <= 64,
                data@ == Seq::new(if k < 32 { k as nat } else { 32 }, |j: int| b),
                signature@ == Seq::new(k as nat, |j: int| 0u8),
            decreases 64 - k,
        {
            if k < 32 {
                data.push(b);
            }
            signature.push(0);
            k = k + 1;
            assert(data@ =~= Seq::new(if k < 32 { k as nat } else { 32 }, |j: int| b));
            assert(signature@ =~= Seq::new(k as nat, |j: int| 0u8));
        }
        Ok(DecryptionShare { validator_index, data, signature })
    }

    /// The index of the pool entry with id `id`.
    fn find_in_pool(&self, id: &TxHash) -> (r: Option<usize>)
        ensures
            r matches Some(i) ==> i < self.pool().len() && self.pool()[i as int].0.id.0@ == id.0@,
            r is None ==> !pool_has(self.pool(), id.0@),
    {
        let mut i: usize = 0;
        while i < self.encrypted_transactions.len()
            invariant
                i <= self.encrypted_transactions@.len(),
                forall|k: int| 0 <= k < i ==> self.encrypted_transactions@[k].0.id.0@ != id.0@,
            decreases self.encrypted_transactions@.len() - i,
        {
            if self.encrypted_transactions[i].0.id == *id {
                return Some(i);
            }
            i = i + 1;
        }
        None
    }

    /// Stores a transaction sealed as `sealed` at `now`: its record (id, sealed bytes, time
    /// lock, priority, gas price, chain) replaces the entry with the same id or is added
    /// after the others, with the sealing nonce; a pool at its size limit refuses it.
    pub fn store_encrypted_at(&mut self, transaction: &Transaction, sealed: Ciphertext, now: i64) -> (r: Result<
        EncryptedTransaction,
        MEVShieldError,
    >)
        requires
            old(self).wf(),
            now <= i64::MAX - 15_000,
        ensures
            final(self).wf(),
            final(self).configuration() == old(self).configuration(),
            final(self).key() == old(self).key(),
            final(self).validator_count() == old(self).validator_count(),
            final(self).shares() == old(self).shares(),
            (old(self).pool().len() >= old(self).configuration().max_pool_size) <==> r is Err,
            r matches Err(e) ==> (e matches MEVShieldError::ResourceExhausted(m) && m@ == "Encrypted mempool is full"@)
                && final(self).pool() == old(self).pool(),
            r matches Ok(e) ==> record_of(e, *transaction, sealed.data@, now) && pool_stored(
                old(self).pool(),
                final(self).pool(),
                e,
                sealed.nonce,
            ),
    {
        let ciphertext = sealed;
        let nonce = ciphertext.nonce;
        let encrypted_tx = EncryptedTransaction {
            id: transaction.hash(),
            encrypted_data: ciphertext.data,
            submission_time: now,
            time_lock: self.calculate_time_lock_at(transaction, now),
            priority: self.calculate_priority(transaction),
            gas_price: transaction.gas_price,
            chain_id: transaction.chain_id,
        };
        if self.encrypted_transactions.len() >= self.config.max_pool_size as usize {
            return Err(MEVShieldError::ResourceExhausted(String::from_str("Encrypted mempool is full")));
        }
        let stored = copy_encrypted(&encrypted_tx);
        let ghost mut k_idx: int = 0;
        match self.find_in_pool(&encrypted_tx.id) {
            Some(i) => {
                let ghost before = self.encrypted_transactions@;
                self.encrypted_transactions.set(i, (stored, nonce));
                proof {
                    assert forall|a: int, b: int| 0 <= a < b < self.encrypted_transactions@.len() implies self.encrypted_transactions@[a].0.id.0@
                        != self.encrypted_transactions@[b].0.id.0@ by {
                        if a != i && b != i {
                            assert(self.encrypted_transactions@[a] == before[a]);
                            assert(self.encrypted_transactions@[b] == before[b]);
                        } else if a == i {
                            assert(self.encrypted_transactions@[b] == before[b]);
                        } else {
                            assert(self.encrypted_transactions@[a] == before[a]);
                        }
                    }
                    assert(self.encrypted_transactions@[i as int] == (stored, nonce));
                    k_idx = i as int;
                    assert forall|j: int| 0 <= j < before.len() implies if before[j].0.id.0@ == encrypted_tx.id.0@ {
                        same_encrypted(self.pool()[j].0, encrypted_tx) && self.pool()[j].1 == nonce
                    } else {
                        self.pool()[j] == before[j]
                    } by {
                        if j != i {
                            assert(self.pool()[j] == before[j]);
                        }
                    }
                }
            },
            None => {
                let ghost before = self.encrypted_transactions@;
                self.encrypted_transactions.push((stored, nonce));
                proof {
                    assert forall|a: int, b: int| 0 <= a < b < self.encrypted_transactions@.len() implies self.encrypted_transactions@[a].0.id.0@
                        != self.encrypted_transactions@[b].0.id.0@ by {
                        if b < before.len() {
                            assert(self.encrypted_transactions@[a] == before[a]);
                            assert(self.encrypted_transactions@[b] == before[b]);
                        } else {
                            assert(self.encrypted_transactions@[a] == before[a]);
                            assert(pool_has(before, before[a].0.id.0@));
                        }
                    }
                    assert(self.encrypted_transactions@[before.len() as int] == (stored, nonce));
                    k_idx = before.len() as int;
                    assert forall|j: int| 0 <= j < before.len() implies self.pool()[j] == before[j] by {}
                }
            },
        }
        proof {
            assert(self.pool()[k_idx] == (stored, nonce));
            assert(same_encrypted(self.pool()[k_idx].0, encrypted_tx));
        }
        Ok(encrypted_tx)
    }

    /// Seals a transaction, given as its serialized bytes, at `now` and stores it; a pool
    /// at its size limit refuses it.
    pub fn encrypt_transaction_at(&mut self, transaction: &Transaction, tx_data: &[u8], now: i64) -> (r: Result<EncryptedTransaction, MEVShieldError>)
        requires
            old(self).wf(),
            now <= i64::MAX - 15_000,
        ensures
            final(self).wf(),
            final(self).configuration() == old(self).configuration(),
            final(self).key() == old(self).key(),
            final(self).validator_count() == old(self).validator_count(),
            validation_failure(*transaction) matches Some(m) ==> r matches Err(MEVShieldError::Encryption(
                EncryptionError::CryptoError(s),
            )) && s@ == m && final(self).pool() == old(self).pool(),
            r matches Ok(e) ==> {
                &&& validation_failure(*transaction) is None
                &&& e.id.0@ == keccak256(tx_hash_preimage(*transaction))
                &&& e.submission_time == now
                &&& e.time_lock == Some(
                    TimeLock { unlock_time: (now + time_lock_delay(transaction_type_of(transaction.data@))) as i64, created_at: now },
                )
                &&& e.priority == gas_priority(transaction.gas_price)
                &&& e.gas_price == transaction.gas_price
                &&& e.chain_id == transaction.chain_id
                &&& exists|k: int|
                    0 <= k < final(self).pool().len() && same_encrypted(#[trigger] final(self).pool()[k].0, e)
                        && e.encrypted_data@ == aes256gcm_seal(old(self).key(), final(self).pool()[k].1@, tx_data@)
                        && aes256gcm_open(old(self).key(), final(self).pool()[k].1@, e.encrypted_data@) == Some(tx_data@)
            },
            r matches Err(MEVShieldError::ResourceExhausted(m)) ==> m@ == "Encrypted mempool is full"@
                && old(self).pool().len() >= old(self).configuration().max_pool_size && final(self).pool() == old(self).pool(),
            validation_failure(*transaction) is None && tx_data@.len() <= aes_gcm_max_input() && old(self).pool().len()
                < old(self).configuration().max_pool_size ==> r is Ok || r matches Err(
                MEVShieldError::Encryption(EncryptionError::CryptoError(_)),
            ),
            r is Ok ==> final(self).pool().len() <= old(self).pool().len() + 1,
            r matches Err(e) ==> e is Encryption || e is ResourceExhausted,
    {
        match self.validate_transaction(transaction) {
            Ok(()) => {},
            Err(e) => return Err(MEVShieldError::Encryption(e)),
        }
        let ciphertext = match self.threshold_scheme.encrypt_at(tx_data, now) {
            Ok(c) => c,
            Err(e) => return Err(MEVShieldError::Encryption(e)),
        };
        let ghost sealed = ciphertext;
        let r = self.store_encrypted_at(transaction, ciphertext, now);
        proof {
            if r is Ok {
                let e = r->Ok_0;
                let pool = self.pool();
                if pool_has(old(self).pool(), e.id.0@) {
                    let j = choose|j: int| 0 <= j < old(self).pool().len() && (#[trigger] old(self).pool()[j]).0.id.0@ == e.id.0@;
                    assert(same_encrypted(pool[j].0, e) && pool[j].1 == sealed.nonce);
                } else {
                    assert(same_encrypted(pool[old(self).pool().len() as int].0, e));
                }
            }
        }
        r
    }
}


/// How many shares the collection gathers from `n` validators for threshold `t`: one at
/// least where there is a validator (the count is checked after each share), at most `t`.
pub open spec fn share_count(t: nat, n: nat) -> nat {
    if n == 0 {
        0
    } else if t <= 1 {
        1
    } else if t < n {
        t
    } else {
        n
    }
}

/// The share of validator `k`.
pub open spec fn share_of(s: DecryptionShare, k: int) -> bool {
    s.validator_index == k && s.data@ == Seq::new(32, |j: int| k as u8) && s.signature@ == Seq::new(64, |j: int| 0u8)
}

/// The entries younger than an hour at `now`, in order.
pub open spec fn young(pool: Seq<(EncryptedTransaction, [u8; 12])>, now: i64) -> Seq<(EncryptedTransaction, [u8; 12])>
    decreases pool.len(),
{
    if pool.len() == 0 {
        pool
    } else {
        let rest = young(pool.drop_last(), now);
        if (now as int - pool.last().0.submission_time as int) < 3_600_000 {
            rest.push(pool.last())
        } else {
            rest
        }
    }
}

/// `idx` lists, once each and in the order of readiness (higher priority first, then
/// earlier; ties in pool order), the pool entries that are ready at `now`.
pub open spec fn ready_order(idx: Seq<int>, pool: Seq<(EncryptedTransaction, [u8; 12])>, now: i64, min_age_ms: int) -> bool {
    &&& forall|a: int| 0 <= a < idx.len() ==> 0 <= #[trigger] idx[a] < pool.len() && ready_at(pool[idx[a]].0, now, min_age_ms)
    &&& forall|a: int, b: int| 0 <= a < b < idx.len() ==> idx[a] != idx[b]
    &&& forall|j: int| 0 <= j < pool.len() && ready_at(#[trigger] pool[j].0, now, min_age_ms) ==> idx.contains(j)
    &&& forall|a: int, b: int| 0 <= a < b < idx.len() ==> !ready_before(pool[idx[b]].0, pool[idx[a]].0)
    &&& forall|a: int, b: int|
        0 <= a < b < idx.len() && !ready_before(pool[idx[a]].0, pool[idx[b]].0) ==> idx[a] < idx[b]
}

impl EncryptedMempoolService {
    /// The index of the shares stored for `id`.
    fn find_shares(&self, id: &TxHash) -> (r: Option<usize>)
        ensures
            match r {
                Some(j) => j < self.shares().len() && self.shares()[j as int].0.0@ == id.0@ && forall|k: int|
                    0 <= k < j ==> (#[trigger] self.shares()[k]).0.0@ != id.0@,
                None => forall|k: int| 0 <= k < self.shares().len() ==> (#[trigger] self.shares()[k]).0.0@ != id.0@,
            },
    {
        let mut j: usize = 0;
        while j < self.decryption_shares.len()
            invariant
                j <= self.decryption_shares@.len(),
                forall|k: int| 0 <= k < j ==> (#[trigger] self.shares()[k]).0.0@ != id.0@,
            decreases self.decryption_shares@.len() - j,
        {
            if self.decryption_shares[j].0 == *id {
                return Some(j);
            }
            j = j + 1;
        }
        None
    }

    /// Seals a transaction given as its serialized bytes now.
    pub fn encrypt_transaction(&mut self, transaction: &Transaction, tx_data: &[u8]) -> (r: Result<EncryptedTransaction, MEVShieldError>)
        requires
            old(self).wf(),
        ensures
            final(self).wf(),
            final(self).configuration() == old(self).configuration(),
            final(self).key() == old(self).key(),
            final(self).validator_count() == old(self).validator_count(),
            validation_failure(*transaction) matches Some(m) ==> r matches Err(MEVShieldError::Encryption(
                EncryptionError::CryptoError(s),
            )) && s@ == m && final(self).pool() == old(self).pool(),
            r matches Ok(e) ==> {
                &&& validation_failure(*transaction) is None
                &&& e.id.0@ == keccak256(tx_hash_preimage(*transaction))
                &&& e.time_lock == Some(
                    TimeLock {
                        unlock_time: (e.submission_time + time_lock_delay(transaction_type_of(transaction.data@))) as i64,
                        created_at: e.submission_time,
                    },
                )
                &&& e.priority == gas_priority(transaction.gas_price)
                &&& e.gas_price == transaction.gas_price
                &&& e.chain_id == transaction.chain_id
                &&& exists|k: int|
                    0 <= k < final(self).pool().len() && same_encrypted(#[trigger] final(self).pool()[k].0, e)
                        && e.encrypted_data@ == aes256gcm_seal(old(self).key(), final(self).pool()[k].1@, tx_data@)
                        && aes256gcm_open(old(self).key(), final(self).pool()[k].1@, e.encrypted_data@) == Some(tx_data@)
            },
            r matches Err(MEVShieldError::ResourceExhausted(m)) ==> m@ == "Encrypted mempool is full"@
                && old(self).pool().len() >= old(self).configuration().max_pool_size && final(self).pool() == old(self).pool(),
            r matches Err(MEVShieldError::Internal(m)) ==> m@ == "clock out of range"@ && final(self).pool() == old(
                self,
            ).pool(),
            validation_failure(*transaction) is None && tx_data@.len() <= aes_gcm_max_input() && old(self).pool().len()
                < old(self).configuration().max_pool_size ==> r is Ok || r matches Err(
                MEVShieldError::Encryption(EncryptionError::CryptoError(_)),
            ) || r matches Err(MEVShieldError::Internal(_)),
    {
        match self.validate_transaction(transaction) {
            Ok(()) => {},
            Err(e) => return Err(MEVShieldError::Encryption(e)),
        }
        let now = crate::clock::now_millis();
        if now > i64::MAX - 15_000 {
            let r = Err(MEVShieldError::Internal(String::from_str("clock out of range")));
            proof {
                reveal_strlit("clock out of range");
            }
            return r;
        }
        self.encrypt_transaction_at(transaction, tx_data, now)
    }

    /// Gathers the validators' shares for the pooled transaction `tx_id`: one validator at a
    /// time until the threshold is met; too few is an error.
    pub fn collect_decryption_shares(&mut self, tx_id: &TxHash, block_height: u64) -> (r: Result<Vec<DecryptionShare>, MEVShieldError>)
        ensures
            final(self).pool() == old(self).pool(),
            final(self).key() == old(self).key(),
            final(self).configuration() == old(self).configuration(),
            final(self).validator_count() == old(self).validator_count(),
            if !pool_has(old(self).pool(), tx_id.0@) {
                r matches Err(MEVShieldError::Encryption(EncryptionError::TransactionNotFound { tx_id: s }))
                    && s@ == "0x"@ + hex_encode_spec(tx_id.0@)
            } else {
                let cnt = share_count(old(self).configuration().threshold as nat, old(self).validator_count());
                if cnt < old(self).configuration().threshold {
                    r matches Err(MEVShieldError::Encryption(EncryptionError::InsufficientShares { required, actual }))
                        && required == old(self).configuration().threshold && actual == cnt
                } else {
                    r matches Ok(v) && v@.len() == cnt && forall|k: int| 0 <= k < cnt ==> share_of(#[trigger] v@[k], k)
                }
            },
    {
        let idx = self.find_in_pool(tx_id);
        if idx.is_none() {
            return Err(
                MEVShieldError::Encryption(EncryptionError::TransactionNotFound { tx_id: tx_id.to_hex_string() }),
            );
        }
        let pos = idx.unwrap();
        let threshold = self.config.threshold;
        let n = self.validator_keys.len();
        let mut shares: Vec<DecryptionShare> = Vec::new();
        let mut i: usize = 0;
        while i < n && (i == 0 || i < threshold as usize)
            invariant
                n == self.validator_keys@.len(),
                pos < self.encrypted_transactions@.len(),
                threshold == self.config.threshold,
                i <= share_count(threshold as nat, n as nat),
                shares@.len() == i,
                forall|k: int| 0 <= k < i ==> share_of(#[trigger] shares@[k], k),
            decreases n - i,
        {
            let share = match self.request_decryption_share(&self.validator_keys[i], &self.encrypted_transactions[pos].0, i as u32) {
                Ok(s) => s,
                Err(_) => {
                    return Err(MEVShieldError::Encryption(EncryptionError::InvalidShare { validator_id: i as u32 }));
                },
            };
            shares.push(share);
            i = i + 1;
        }
        if shares.len() < threshold as usize {
            return Err(
                MEVShieldError::Encryption(
                    EncryptionError::InsufficientShares { required: threshold, actual: shares.len() as u32 },
                ),
            );
        }
        let stored = shares.clone();
        match self.find_shares(tx_id) {
            Some(j) => {
                self.decryption_shares.set(j, (*tx_id, stored));
            },
            None => {
                self.decryption_shares.push((*tx_id, stored));
            },
        }
        Ok(shares)
    }
}


impl EncryptedMempoolService {
    /// Opens a pooled transaction at `now` and takes it out of the pool: it must be ready,
    /// pooled, and have enough shares; the ciphertext opens with the nonce it was sealed
    /// under. The result is the serialized transaction.
    pub fn decrypt_transaction_at(&mut self, encrypted_tx: EncryptedTransaction, now: i64) -> (r: Result<Vec<u8>, MEVShieldError>)
        requires
            old(self).wf(),
            old(self).configuration().minimum_age * 1000 <= i64::MAX,
        ensures
            final(self).wf(),
            final(self).key() == old(self).key(),
            final(self).configuration() == old(self).configuration(),
            final(self).validator_count() == old(self).validator_count(),
            !ready_at(encrypted_tx, now, old(self).configuration().minimum_age as int * 1000) ==> r matches Err(
                MEVShieldError::Encryption(EncryptionError::NotReadyForDecryption),
            ),
            ready_at(encrypted_tx, now, old(self).configuration().minimum_age as int * 1000) && !pool_has(
                old(self).pool(),
                encrypted_tx.id.0@,
            ) ==> r matches Err(MEVShieldError::Encryption(EncryptionError::TransactionNotFound { .. })),
            ready_at(encrypted_tx, now, old(self).configuration().minimum_age as int * 1000) && pool_has(
                old(self).pool(),
                encrypted_tx.id.0@,
            ) && share_count(old(self).configuration().threshold as nat, old(self).validator_count())
                < old(self).configuration().threshold ==> r matches Err(
                MEVShieldError::Encryption(EncryptionError::InsufficientShares { .. }),
            ),
            r is Err ==> final(self).pool() == old(self).pool(),
            r matches Ok(p) ==> exists|k: int|
                0 <= k < old(self).pool().len() && (#[trigger] old(self).pool()[k]).0.id.0@ == encrypted_tx.id.0@
                    && aes256gcm_open(old(self).key(), old(self).pool()[k].1@, encrypted_tx.encrypted_data@) == Some(p@)
                    && final(self).pool() == old(self).pool().remove(k),
            forall|k: int|
                0 <= k < old(self).pool().len() && (#[trigger] old(self).pool()[k]).0.id.0@ == encrypted_tx.id.0@
                    && ready_at(encrypted_tx, now, old(self).configuration().minimum_age as int * 1000) && share_count(
                    old(self).configuration().threshold as nat,
                    old(self).validator_count(),
                ) >= old(self).configuration().threshold && aes256gcm_open(
                    old(self).key(),
                    old(self).pool()[k].1@,
                    encrypted_tx.encrypted_data@,
                ) is Some ==> r is Ok,
    {
        match self.is_ready_for_decryption_at(&encrypted_tx, 0, now) {
            Ok(true) => {},
            Ok(false) => return Err(MEVShieldError::Encryption(EncryptionError::NotReadyForDecryption)),
            Err(e) => return Err(MEVShieldError::Encryption(e)),
        }
        let shares = match self.collect_decryption_shares(&encrypted_tx.id, 0) {
            Ok(s) => s,
            Err(e) => return Err(e),
        };
        let pos = match self.find_in_pool(&encrypted_tx.id) {
            Some(p) => p,
            None => {
                return Err(
                    MEVShieldError::Encryption(
                        EncryptionError::TransactionNotFound { tx_id: encrypted_tx.id.to_hex_string() },
                    ),
                );
            },
        };
        let ghost pool0 = self.encrypted_transactions@;
        proof {
            assert forall|k: int| 0 <= k < pool0.len() && pool0[k].0.id.0@ == encrypted_tx.id.0@ implies k == pos by {
                if k != pos {
                    if k < pos {
                        assert(pool0[k].0.id.0@ != pool0[pos as int].0.id.0@);
                    } else {
                        assert(pool0[pos as int].0.id.0@ != pool0[k].0.id.0@);
                    }
                }
            }
        }
        let ciphertext = Ciphertext {
            data: encrypted_tx.encrypted_data.clone(),
            nonce: self.encrypted_transactions[pos].1,
            timestamp: encrypted_tx.submission_time,
        };
        assert(ciphertext.data@ =~= encrypted_tx.encrypted_data@);
        let decrypted = match self.threshold_scheme.decrypt(&ciphertext, shares.as_slice()) {
            Ok(d) => d,
            Err(e) => return Err(MEVShieldError::Encryption(e)),
        };
        self.encrypted_transactions.remove(pos);
        proof {
            assert forall|a: int, b: int| 0 <= a < b < self.encrypted_transactions@.len() implies self.encrypted_transactions@[a].0.id.0@
                != self.encrypted_transactions@[b].0.id.0@ by {
                let a0 = if a < pos { a } else { a + 1 };
                let b0 = if b < pos { b } else { b + 1 };
                assert(self.encrypted_transactions@[a] == pool0[a0]);
                assert(self.encrypted_transactions@[b] == pool0[b0]);
            }
        }
        Ok(decrypted)
    }

    /// The pooled transactions ready for decryption at `now`, higher priority first, then
    /// earlier.
    pub fn get_ready_transactions_at(&self, block_height: u64, now: i64) -> (r: Result<Vec<EncryptedTransaction>, MEVShieldError>)
        requires
            self.configuration().minimum_age * 1000 <= i64::MAX,
        ensures
            r matches Ok(v) && exists|idx: Seq<int>|
                #[trigger] ready_order(idx, self.pool(), now, self.configuration().minimum_age as int * 1000) && v@.len()
                    == idx.len() && forall|k: int| 0 <= k < idx.len() ==> #[trigger] same_encrypted(v@[k], self.pool()[idx[k]].0),
    {
        let ghost pool = self.encrypted_transactions@;
        let ghost min_age = self.config.minimum_age as int * 1000;
        let n = self.encrypted_transactions.len();
        let mut idx: Vec<usize> = Vec::new();
        let mut i: usize = 0;
        while i < n
            invariant
                n == pool.len(),
                pool == self.encrypted_transactions@,
                min_age == self.configuration().minimum_age as int * 1000,
                self.configuration().minimum_age * 1000 <= i64::MAX,
                i <= n,
                forall|a: int| 0 <= a < idx@.len() ==> #[trigger] idx@[a] < i && ready_at(pool[idx@[a] as int].0, now, min_age),
                forall|a: int, b: int| 0 <= a < b < idx@.len() ==> idx@[a] != idx@[b],
                forall|j: int| 0 <= j < i && ready_at(#[trigger] pool[j].0, now, min_age) ==> idx@.contains(j as usize),
                forall|a: int, b: int|
                    0 <= a < b < idx@.len() ==> !ready_before(pool[idx@[b] as int].0, pool[idx@[a] as int].0),
                forall|a: int, b: int|
                    0 <= a < b < idx@.len() && !ready_before(pool[idx@[a] as int].0, pool[idx@[b] as int].0) ==> idx@[a]
                        < idx@[b],
            decreases n - i,
        {
            let ready = match self.is_ready_for_decryption_at(&self.encrypted_transactions[i].0, block_height, now) {
                Ok(b) => b,
                Err(e) => return Err(MEVShieldError::Encryption(e)),
            };
            if ready {
                let mut p: usize = 0;
                while p < idx.len() && !self.goes_before(i, idx[p])
                    invariant
                        n == pool.len(),
                        pool == self.encrypted_transactions@,
                        i < n,
                        p <= idx@.len(),
                        forall|a: int| 0 <= a < idx@.len() ==> #[trigger] idx@[a] < i,
                        forall|a: int| 0 <= a < p ==> !ready_before(pool[i as int].0, pool[#[trigger] idx@[a] as int].0),
                    decreases idx@.len() - p,
                {
                    p = p + 1;
                }
                let ghost old_idx = idx@;
                idx.insert(p, i);
                proof {
                    assert forall|a: int| 0 <= a < idx@.len() implies #[trigger] idx@[a] < i + 1 && ready_at(pool[idx@[a] as int].0, now, min_age) by {
                        if a < p {
                            assert(idx@[a] == old_idx[a]);
                        } else if a > p {
                            assert(idx@[a] == old_idx[a - 1]);
                        }
                    }
                    assert forall|a: int, b: int| 0 <= a < b < idx@.len() implies idx@[a] != idx@[b] by {
                        if a < p && b < p {
                            assert(idx@[a] == old_idx[a] && idx@[b] == old_idx[b]);
                        } else if a < p && b == p {
                            assert(idx@[a] == old_idx[a]);
                        } else if a < p {
                            assert(idx@[a] == old_idx[a] && idx@[b] == old_idx[b - 1]);
                        } else if a == p {
                            assert(idx@[b] == old_idx[b - 1]);
                        } else {
                            assert(idx@[a] == old_idx[a - 1] && idx@[b] == old_idx[b - 1]);
                        }
                    }
                    assert forall|j: int| 0 <= j < i + 1 && ready_at(#[trigger] pool[j].0, now, min_age) implies idx@.contains(j as usize) by {
                        if j < i {
                            let w = choose|w: int| 0 <= w < old_idx.len() && old_idx[w] == j as usize;
                            if w < p {
                                assert(idx@[w] == old_idx[w]);
                            } else {
                                assert(idx@[w + 1] == old_idx[w]);
                            }
                        } else {
                            assert(idx@[p as int] == i);
                        }
                    }
                    assert forall|q: int| p <= q < old_idx.len() implies ready_before(
                        pool[i as int].0,
                        pool[#[trigger] old_idx[q] as int].0,
                    ) by {
                        assert(ready_before(pool[i as int].0, pool[old_idx[p as int] as int].0));
                        if q > p {
                            assert(!ready_before(pool[old_idx[q] as int].0, pool[old_idx[p as int] as int].0));
                        }
                    }
                    assert forall|a: int, b: int| 0 <= a < b < idx@.len() implies !ready_before(
                        pool[idx@[b] as int].0,
                        pool[idx@[a] as int].0,
                    ) && (!ready_before(pool[idx@[a] as int].0, pool[idx@[b] as int].0) ==> idx@[a] < idx@[b]) by {
                        if a < p && b < p {
                            assert(idx@[a] == old_idx[a] && idx@[b] == old_idx[b]);
                        } else if a < p && b == p {
                            assert(idx@[a] == old_idx[a]);
                            assert(old_idx[a] < i);
                        } else if a < p {
                            assert(idx@[a] == old_idx[a] && idx@[b] == old_idx[b - 1]);
                        } else if a == p {
                            assert(idx@[b] == old_idx[b - 1]);
                        } else {
                            assert(idx@[a] == old_idx[a - 1] && idx@[b] == old_idx[b - 1]);
                        }
                    }
                }
            }
            i = i + 1;
        }
        let mut out: Vec<EncryptedTransaction> = Vec::new();
        let mut k: usize = 0;
        while k < idx.len()
            invariant
                n == pool.len(),
                pool == self.encrypted_transactions@,
                forall|a: int| 0 <= a < idx@.len() ==> #[trigger] idx@[a] < n,
                k <= idx@.len(),
                out@.len() == k,
                forall|b: int| 0 <= b < k ==> #[trigger] same_encrypted(out@[b], pool[idx@[b] as int].0),
            decreases idx@.len() - k,
        {
            let e = copy_encrypted(&self.encrypted_transactions[idx[k]].0);
            out.push(e);
            k = k + 1;
        }
        let ghost im = Seq::new(idx@.len(), |a: int| idx@[a] as int);
        proof {
            assert forall|j: int| 0 <= j < pool.len() && ready_at(#[trigger] pool[j].0, now, min_age) implies im.contains(j) by {
                assert(idx@.contains(j as usize));
                let w = choose|w: int| 0 <= w < idx@.len() && idx@[w] == j as usize;
                assert(im[w] == j);
            }
            assert(ready_order(im, pool, now, min_age));
            assert forall|b: int| 0 <= b < im.len() implies #[trigger] same_encrypted(out@[b], self.pool()[im[b]].0) by {
                assert(same_encrypted(out@[b], pool[idx@[b] as int].0));
            }
            assert(ready_order(im, self.pool(), now, self.configuration().minimum_age as int * 1000));
            assert(out@.len() == im.len());
        }
        Ok(out)
    }

    /// Whether pool entry `i` goes before pool entry `j` in readiness order.
    fn goes_before(&self, i: usize, j: usize) -> (r: bool)
        requires
            i < self.pool().len(),
            j < self.pool().len(),
        ensures
            r == ready_before(self.pool()[i as int].0, self.pool()[j as int].0),
    {
        let a = &self.encrypted_transactions[i].0;
        let b = &self.encrypted_transactions[j].0;
        let ra = a.priority.rank();
        let rb = b.priority.rank();
        ra > rb || (ra == rb && a.submission_time < b.submission_time)
    }

    /// Drops the pooled transactions an hour old or older at `now`; returns how many went.
    pub fn cleanup_expired_at(&mut self, now: i64) -> (removed: usize)
        requires
            old(self).wf(),
        ensures
            final(self).wf(),
            final(self).pool() == young(old(self).pool(), now),
            removed == old(self).pool().len() - final(self).pool().len(),
            final(self).key() == old(self).key(),
            final(self).configuration() == old(self).configuration(),
    {
        let ghost pool0 = self.encrypted_transactions@;
        let initial = self.encrypted_transactions.len();
        let mut kept: Vec<(EncryptedTransaction, [u8; 12])> = Vec::new();
        let mut rest: Vec<(EncryptedTransaction, [u8; 12])> = Vec::new();
        std::mem::swap(&mut rest, &mut self.encrypted_transactions);
        let mut i: usize = 0;
        while rest.len() > 0
            invariant
                i + rest@.len() == pool0.len(),
                rest@ == pool0.subrange(i as int, pool0.len() as int),
                kept@ == young(pool0.subrange(0, i as int), now),
                self.encrypted_transactions@.len() == 0,
                self.threshold_scheme == old(self).threshold_scheme,
                self.config == old(self).config,
                initial == pool0.len(),
            decreases rest@.len(),
        {
            let e = rest.remove(0);
            proof {
                assert(pool0.subrange(0, i + 1).drop_last() =~= pool0.subrange(0, i as int));
                assert(e == pool0[i as int]);
            }
            if (now as i128 - e.0.submission_time as i128) < 3_600_000 {
                kept.push(e);
            }
            i = i + 1;
            proof {
                assert(rest@ =~= pool0.subrange(i as int, pool0.len() as int));
            }
        }
        proof {
            assert(pool0.subrange(0, pool0.len() as int) =~= pool0);
            lemma_young_subseq(pool0, now);
        }
        self.encrypted_transactions = kept;
        proof {
            assert forall|a: int, b: int| 0 <= a < b < self.encrypted_transactions@.len() implies self.encrypted_transactions@[a].0.id.0@
                != self.encrypted_transactions@[b].0.id.0@ by {
                let (ia, ib) = lemma_young_index(pool0, now, a, b);
            }
        }
        initial - self.encrypted_transactions.len()
    }
}

/// What decryption gives back is what encryption sealed: an entry sealed for `data` under
/// `key` and `nonce` opens to `data`, and a decryption that opens it returns exactly that.
pub proof fn lemma_mempool_roundtrip(key: Seq<u8>, nonce: Seq<u8>, ciphertext: Seq<u8>, data: Seq<u8>, decrypted: Seq<u8>)
    requires
        aes256gcm_open(key, nonce, ciphertext) == Some(data),
        aes256gcm_open(key, nonce, ciphertext) == Some(decrypted),
    ensures
        decrypted == data,
{
}

/// `young` keeps a subsequence: it is no longer than the pool.
proof fn lemma_young_subseq(pool: Seq<(EncryptedTransaction, [u8; 12])>, now: i64)
    ensures
        young(pool, now).len() <= pool.len(),
    decreases pool.len(),
{
    if pool.len() > 0 {
        lemma_young_subseq(pool.drop_last(), now);
    }
}

/// Entries `a < b` of `young(pool)` come from entries `ia < ib` of the pool.
proof fn lemma_young_index(pool: Seq<(EncryptedTransaction, [u8; 12])>, now: i64, a: int, b: int) -> (r: (int, int))
    requires
        0 <= a < b < young(pool, now).len(),
    ensures
        0 <= r.0 < r.1 < pool.len(),
        young(pool, now)[a] == pool[r.0],
        young(pool, now)[b] == pool[r.1],
    decreases pool.len(),
{
    let rest = young(pool.drop_last(), now);
    lemma_young_subseq(pool.drop_last(), now);
    if b < rest.len() {
        let (x, y) = lemma_young_index(pool.drop_last(), now, a, b);
        (x, y)
    } else {
        if a + 1 < b {
            let (x, y) = lemma_young_index(pool.drop_last(), now, a, a + 1);
            (x, pool.len() - 1)
        } else {
            if rest.len() >= 2 && a >= 1 {
                let (x, y) = lemma_young_index(pool.drop_last(), now, a - 1, a);
                (y, pool.len() - 1)
            } else {
                let x = lemma_young_elem(pool.drop_last(), now, a);
                (x, pool.len() - 1)
            }
        }
    }
}

/// Entry `a` of `young(pool)` is some entry of the pool.
proof fn lemma_young_elem(pool: Seq<(EncryptedTransaction, [u8; 12])>, now: i64, a: int) -> (r: int)
    requires
        0 <= a < young(pool, now).len(),
    ensures
        0 <= r < pool.len(),
        young(pool, now)[a] == pool[r],
    decreases pool.len(),
{
    let rest = young(pool.drop_last(), now);
    lemma_young_subseq(pool.drop_last(), now);
    if a < rest.len() {
        lemma_young_elem(pool.drop_last(), now, a)
    } else {
        pool.len() - 1
    }
}

} // verus!

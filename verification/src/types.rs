//! Core data types: addresses, hashes, transactions and their classification.
//! Amounts of wei are `u128`; times are milliseconds since the Unix epoch.
use vstd::prelude::*;
use vstd::string::StringSliceAdditionalSpecFns;
use sha3::Digest;

verus! {

/// Ethereum-style 20-byte address.
#[derive(Debug, Clone, Copy, Eq, Hash)]
pub struct Address(pub [u8; 20]);

/// Transaction hash (32 bytes).
#[derive(Debug, Clone, Copy, Eq, Hash)]
pub struct TxHash(pub [u8; 32]);

/// Generic 32-byte hash.
#[derive(Debug, Clone, Copy, Eq, Hash)]
pub struct Hash(pub [u8; 32]);

/// Whether two byte strings are equal.
pub fn bytes_eq(a: &[u8], b: &[u8]) -> (r: bool)
    ensures
        r == (a@ == b@),
{
    if a.len() != b.len() {
        return false;
    }
    let mut i: usize = 0;
    while i < a.len()
        invariant
            i <= a@.len(),
            a@.len() == b@.len(),
            forall|k: int| 0 <= k < i ==> a@[k] == b@[k],
        decreases a@.len() - i,
    {
        if a[i] != b[i] {
            return false;
        }
        i = i + 1;
    }
    assert(a@ =~= b@);
    true
}

impl PartialEq for Address {
    fn eq(&self, other: &Self) -> (r: bool) {
        bytes_eq(&self.0, &other.0)
    }
}

impl vstd::std_specs::cmp::PartialEqSpecImpl for Address {
    open spec fn obeys_eq_spec() -> bool {
        true
    }

    open spec fn eq_spec(&self, other: &Self) -> bool {
        self.0@ == other.0@
    }
}

impl PartialEq for TxHash {
    fn eq(&self, other: &Self) -> (r: bool) {
        bytes_eq(&self.0, &other.0)
    }
}

impl vstd::std_specs::cmp::PartialEqSpecImpl for TxHash {
    open spec fn obeys_eq_spec() -> bool {
        true
    }

    open spec fn eq_spec(&self, other: &Self) -> bool {
        self.0@ == other.0@
    }
}

impl PartialEq for Hash {
    fn eq(&self, other: &Self) -> (r: bool) {
        bytes_eq(&self.0, &other.0)
    }
}

impl vstd::std_specs::cmp::PartialEqSpecImpl for Hash {
    open spec fn obeys_eq_spec() -> bool {
        true
    }

    open spec fn eq_spec(&self, other: &Self) -> bool {
        self.0@ == other.0@
    }
}

/// Errors of hexadecimal decoding, as `hex::FromHexError` has them.
#[derive(Debug, Clone, Copy, PartialEq, Eq, Structural)]
pub enum HexError {
    InvalidHexCharacter { c: char, index: usize },
    OddLength,
    InvalidStringLength,
}

/// The value of one ASCII hexadecimal digit.
pub open spec fn hex_digit(b: u8) -> Option<u8> {
    if 48 <= b <= 57 {
        Some((b - 48) as u8)
    } else if 65 <= b <= 70 {
        Some((b - 55) as u8)
    } else if 97 <= b <= 102 {
        Some((b - 87) as u8)
    } else {
        None
    }
}

/// The index of the first byte of `s` before `end` that is not a hexadecimal digit.
pub open spec fn first_non_hex(s: Seq<u8>, end: int) -> Option<int>
    decreases end,
{
    if end <= 0 {
        None
    } else {
        match first_non_hex(s, end - 1) {
            Some(i) => Some(i),
            None => if hex_digit(s[end - 1]) is None { Some(end - 1) } else { None },
        }
    }
}

/// What `hex::decode` yields for the bytes `s`: `OddLength` for an odd count, else the
/// first non-digit byte (reported as that byte taken as a `char`), else the bytes whose
/// high and low nibbles are the digit pairs.
pub open spec fn hex_decode_spec(s: Seq<u8>) -> Result<Seq<u8>, HexError> {
    if s.len() % 2 != 0 {
        Err(HexError::OddLength)
    } else {
        match first_non_hex(s, s.len() as int) {
            Some(i) => Err(HexError::InvalidHexCharacter { c: s[i] as char, index: i as usize }),
            None => Ok(Seq::new(
                (s.len() / 2) as nat,
                |i: int| (hex_digit(s[2 * i]).unwrap() * 16 + hex_digit(s[2 * i + 1]).unwrap()) as u8,
            )),
        }
    }
}

/// `hex::decode` on the bytes of a string; its error is converted, variant by variant.
/// Stated: the result is `hex_decode_spec` of the bytes, as the crate's source shows.
#[verifier::external_body]
pub(crate) fn hex_decode(s: &[u8]) -> (r: Result<Vec<u8>, HexError>)
    ensures
        match r {
            Ok(v) => hex_decode_spec(s@) == Ok::<Seq<u8>, HexError>(v@),
            Err(e) => hex_decode_spec(s@) == Err::<Seq<u8>, HexError>(e),
        },
{
    match hex::decode(s) {
        Ok(v) => Ok(v),
        Err(hex::FromHexError::InvalidHexCharacter { c, index }) => Err(HexError::InvalidHexCharacter { c, index }),
        Err(hex::FromHexError::OddLength) => Err(HexError::OddLength),
        Err(hex::FromHexError::InvalidStringLength) => Err(HexError::InvalidStringLength),
    }
}

/// The lower-case hexadecimal digit of a nibble.
pub open spec fn hex_char(n: int) -> char {
    if n < 10 {
        (48 + n) as char
    } else {
        (87 + n) as char
    }
}

/// Lower-case hexadecimal text of the bytes `b`, two digits per byte.
pub open spec fn hex_encode_spec(b: Seq<u8>) -> Seq<char> {
    Seq::new(2 * b.len(), |i: int| if i % 2 == 0 { hex_char((b[i / 2] / 16) as int) } else { hex_char((b[i / 2] % 16) as int) })
}

/// `hex::encode`: lower-case hexadecimal text, two digits per byte.
#[verifier::external_body]
fn hex_encode(b: &[u8]) -> (r: String)
    ensures
        r@ == hex_encode_spec(b@),
{
    hex::encode(b)
}

/// The Keccak-256 digest of a byte sequence.
pub uninterp spec fn keccak256(data: Seq<u8>) -> Seq<u8>;

/// `sha3::Keccak256` over the given bytes. Stated: the digest is the named `keccak256`
/// of the input (so that digest is 32 bytes long).
#[verifier::external_body]
pub(crate) fn keccak256_digest(data: &[u8]) -> (r: [u8; 32])
    ensures
        r@ == keccak256(data@),
{
    sha3::Keccak256::digest(data).into()
}

/// Big-endian bytes of a `u64`.
pub open spec fn be_u64(x: u64) -> Seq<u8> {
    seq![
        (x >> 56u64) as u8,
        (x >> 48u64) as u8,
        (x >> 40u64) as u8,
        (x >> 32u64) as u8,
        (x >> 24u64) as u8,
        (x >> 16u64) as u8,
        (x >> 8u64) as u8,
        x as u8,
    ]
}

/// `x.to_be_bytes()`.
pub fn u64_to_be_bytes(x: u64) -> (r: Vec<u8>)
    ensures
        r@ == be_u64(x),
{
    let mut v: Vec<u8> = Vec::new();
    v.push((x >> 56u64) as u8);
    v.push((x >> 48u64) as u8);
    v.push((x >> 40u64) as u8);
    v.push((x >> 32u64) as u8);
    v.push((x >> 24u64) as u8);
    v.push((x >> 16u64) as u8);
    v.push((x >> 8u64) as u8);
    v.push(x as u8);
    assert(v@ =~= be_u64(x));
    v
}

/// Whole seconds of a time in milliseconds (rounded towards minus infinity).
pub open spec fn secs_of(ms: i64) -> int {
    ms as int / 1000
}

/// Whole seconds of a time in milliseconds, as `DateTime::timestamp` reports them.
pub fn seconds_of(ms: i64) -> (s: i64)
    ensures
        s == secs_of(ms),
{
    if ms >= 0 {
        ms / 1000
    } else {
        (ms + 1) / 1000 - 1
    }
}

/// Appends `b` to `a`.
pub fn extend_bytes(a: &mut Vec<u8>, b: &[u8])
    ensures
        final(a)@ == old(a)@ + b@,
{
    let mut i: usize = 0;
    while i < b.len()
        invariant
            i <= b.len(),
            a@ == old(a)@ + b@.subrange(0, i as int),
        decreases b.len() - i,
    {
        a.push(b[i]);
        i = i + 1;
        assert(a@ =~= old(a)@ + b@.subrange(0, i as int));
    }
    assert(b@.subrange(0, b.len() as int) =~= b@);
}

/// The bytes of `s` without a leading `0x`.
pub(crate) fn strip_0x_bytes(s: &str) -> (r: Vec<u8>)
    ensures
        r@ == strip_0x(s.spec_bytes()),
{
    let all = s.as_bytes();
    let start: usize = if all.len() >= 2 && all[0] == 48 && all[1] == 120 { 2 } else { 0 };
    let mut bytes: Vec<u8> = Vec::new();
    let mut i: usize = start;
    while i < all.len()
        invariant
            start <= i <= all.len(),
            bytes@ == all@.subrange(start as int, i as int),
        decreases all.len() - i,
    {
        bytes.push(all[i]);
        i = i + 1;
        assert(bytes@ =~= all@.subrange(start as int, i as int));
    }
    assert(bytes@ =~= strip_0x(all@));
    bytes
}

impl Address {
    /// The all-zero address.
    pub fn zero() -> (a: Self)
        ensures
            forall|i: int| 0 <= i < 20 ==> a.0@[i] == 0,
    {
        Address([0u8; 20])
    }

    /// Whether every byte of the address is zero.
    pub fn is_zero(&self) -> (r: bool)
        ensures
            r == forall|i: int| 0 <= i < 20 ==> self.0@[i] == 0,
    {
        let mut i: usize = 0;
        while i < 20
            invariant
                i <= 20,
                forall|k: int| 0 <= k < i ==> self.0@[k] == 0,
            decreases 20 - i,
        {
            if self.0[i] != 0 {
                return false;
            }
            i = i + 1;
        }
        true
    }

    /// Parses `0x`-prefixed or bare hexadecimal text of exactly 20 bytes.
    pub fn from_str(s: &str) -> (r: Result<Self, HexError>)
        ensures
            match hex_decode_spec(strip_0x(s.spec_bytes())) {
                Ok(v) => if v.len() == 20 {
                    r matches Ok(a) && a.0@ == v
                } else {
                    r == Err::<Address, HexError>(HexError::InvalidStringLength)
                },
                Err(e) => r == Err::<Address, HexError>(e),
            },
    {
        let bytes = strip_0x_bytes(s);
        match hex_decode(bytes.as_slice()) {
            Ok(v) => {
                if v.len() != 20 {
                    return Err(HexError::InvalidStringLength);
                }
                let mut addr = [0u8; 20];
                let mut k: usize = 0;
                while k < 20
                    invariant
                        v.len() == 20,
                        k <= 20,
                        forall|m: int| 0 <= m < k ==> addr@[m] == v@[m],
                    decreases 20 - k,
                {
                    addr[k] = v[k];
                    k = k + 1;
                }
                assert(addr@ =~= v@);
                Ok(Address(addr))
            },
            Err(e) => Err(e),
        }
    }

    /// `0x` followed by the lower-case hexadecimal digits of the address.
    pub fn to_hex_string(&self) -> (r: String)
        ensures
            r@ == "0x"@ + hex_encode_spec(self.0@),
    {
        let digits = hex_encode(&self.0);
        let r = String::from_str("0x").concat(digits.as_str());
        r
    }
}

/// The bytes after a leading `0x`, or all of them when there is none.
pub open spec fn strip_0x(b: Seq<u8>) -> Seq<u8> {
    if b.len() >= 2 && b[0] == 48 && b[1] == 120 {
        b.subrange(2, b.len() as int)
    } else {
        b
    }
}

impl TxHash {
    /// The hash with the given bytes.
    pub fn from_bytes(bytes: [u8; 32]) -> (h: Self)
        ensures
            h.0@ == bytes@,
    {
        TxHash(bytes)
    }

    /// The bytes of the hash.
    pub fn as_bytes(&self) -> (b: &[u8; 32])
        ensures
            b@ == self.0@,
    {
        &self.0
    }

    /// `0x` followed by the lower-case hexadecimal digits of the hash.
    pub fn to_hex_string(&self) -> (r: String)
        ensures
            r@ == "0x"@ + hex_encode_spec(self.0@),
    {
        let digits = hex_encode(&self.0);
        String::from_str("0x").concat(digits.as_str())
    }
}

impl Hash {
    /// The hash made of the first 32 bytes of `bytes`.
    pub fn from(bytes: &[u8]) -> (h: Self)
        requires
            bytes@.len() >= 32,
        ensures
            h.0@ == bytes@.subrange(0, 32),
    {
        let mut out = [0u8; 32];
        let mut k: usize = 0;
        while k < 32
            invariant
                bytes@.len() >= 32,
                k <= 32,
                forall|m: int| 0 <= m < k ==> out@[m] == bytes@[m],
            decreases 32 - k,
        {
            out[k] = bytes[k];
            k = k + 1;
        }
        assert(out@ =~= bytes@.subrange(0, 32));
        Hash(out)
    }
}

/// Transaction types for classification.
#[derive(Debug, Clone, Copy, PartialEq, Eq, Structural)]
pub enum TransactionType {
    Transfer,
    DEXTrade,
    ContractCall,
    Deploy,
}

/// Transaction priority levels, lowest first.
#[derive(Debug, Clone, Copy, PartialEq, Eq, Structural)]
pub enum Priority {
    Low,
    Medium,
    High,
}

/// The rank of a priority: 1 for low, 2 for medium, 3 for high.
pub open spec fn priority_rank(p: Priority) -> int {
    match p {
        Priority::Low => 1,
        Priority::Medium => 2,
        Priority::High => 3,
    }
}

impl Priority {
    /// The rank of the priority: 1, 2 or 3.
    pub fn rank(&self) -> (r: u8)
        ensures
            r == priority_rank(*self),
    {
        match self {
            Priority::Low => 1,
            Priority::Medium => 2,
            Priority::High => 3,
        }
    }
}

/// Protection levels.
#[derive(Debug, Clone, Copy, PartialEq, Eq, Structural)]
pub enum ProtectionLevel {
    Basic,
    Standard,
    Maximum,
    Enterprise,
}

/// Transaction execution status.
#[derive(Debug, Clone, Copy, PartialEq, Eq, Structural)]
pub enum ExecutionStatus {
    Pending,
    Encrypted,
    Ordered,
    Executed,
    Failed,
}

/// Kinds of protection applied to a transaction.
#[derive(Debug, Clone, Copy, PartialEq, Eq, Structural)]
pub enum ProtectionMethod {
    Encryption,
    FairOrdering,
    TimeDelay,
    PrivatePool,
    MEVDetection,
}

/// Types of MEV patterns.
#[derive(Debug, Clone, Copy, PartialEq, Eq, Structural)]
pub enum MEVPatternType {
    SandwichAttack,
    FrontRunning,
    BackRunning,
    Arbitrage,
    JustInTimeProvision,
    MEVExtraction,
}

/// Alert severity levels, lowest first.
#[derive(Debug, Clone, Copy, PartialEq, Eq, Structural)]
pub enum AlertSeverity {
    Low,
    Medium,
    High,
    Critical,
}

/// Reasons for an MEV distribution.
#[derive(Debug, Clone, Copy, PartialEq, Eq, Structural)]
pub enum DistributionReason {
    GasContribution,
    ValueContribution,
    ValidatorReward,
    BuilderReward,
}

/// Time lock for delayed execution (milliseconds since the Unix epoch).
#[derive(Debug, Clone, Copy, PartialEq, Eq)]
pub struct TimeLock {
    pub unlock_time: i64,
    pub created_at: i64,
}

/// A transaction as the services see it.
#[derive(Debug, Clone)]
pub struct Transaction {
    pub from: Address,
    pub to: Address,
    pub value: u128,
    pub gas: u64,
    pub gas_price: u128,
    pub gas_used: u64,
    pub nonce: u64,
    pub data: Vec<u8>,
    pub chain_id: u64,
    pub submission_time: i64,
}

/// An encrypted transaction in the mempool.
#[derive(Debug, Clone)]
pub struct EncryptedTransaction {
    pub id: TxHash,
    pub encrypted_data: Vec<u8>,
    pub submission_time: i64,
    pub time_lock: Option<TimeLock>,
    pub priority: Priority,
    pub gas_price: u128,
    pub chain_id: u64,
}

/// Selector of `swapExactTokensForTokens`.
pub open spec fn is_swap_exact_tokens_selector(d: Seq<u8>) -> bool {
    d[0] == 0xa9 && d[1] == 0x05 && d[2] == 0x9c && d[3] == 0xbb
}

/// Selector of `swapTokensForExactTokens`.
pub open spec fn is_swap_tokens_exact_selector(d: Seq<u8>) -> bool {
    d[0] == 0x87 && d[1] == 0x86 && d[2] == 0x44 && d[3] == 0x56
}

/// The type of a transaction from its call data: no data is a transfer, one of the two
/// token-swap selectors is a DEX trade, anything else a contract call.
pub open spec fn transaction_type_of(d: Seq<u8>) -> TransactionType {
    if d.len() == 0 {
        TransactionType::Transfer
    } else if d.len() >= 4 && (is_swap_exact_tokens_selector(d) || is_swap_tokens_exact_selector(d)) {
        TransactionType::DEXTrade
    } else {
        TransactionType::ContractCall
    }
}

/// The bytes that a transaction's hash covers: sender, recipient, big-endian nonce, data.
pub open spec fn tx_hash_preimage(tx: Transaction) -> Seq<u8> {
    tx.from.0@ + tx.to.0@ + be_u64(tx.nonce) + tx.data@
}

impl Transaction {
    /// Keccak-256 of sender, recipient, big-endian nonce and data.
    pub fn hash(&self) -> (h: TxHash)
        ensures
            h.0@ == keccak256(tx_hash_preimage(*self)),
    {
        let mut buf: Vec<u8> = Vec::new();
        extend_bytes(&mut buf, &self.from.0);
        extend_bytes(&mut buf, &self.to.0);
        let nonce = u64_to_be_bytes(self.nonce);
        extend_bytes(&mut buf, nonce.as_slice());
        extend_bytes(&mut buf, self.data.as_slice());
        assert(buf@ =~= tx_hash_preimage(*self));
        TxHash(keccak256_digest(buf.as_slice()))
    }

    /// The transaction's type from its call data.
    pub fn transaction_type(&self) -> (t: TransactionType)
        ensures
            t == transaction_type_of(self.data@),
    {
        if self.data.len() == 0 {
            TransactionType::Transfer
        } else if self.data.len() >= 4 {
            let d = &self.data;
            if (d[0] == 0xa9 && d[1] == 0x05 && d[2] == 0x9c && d[3] == 0xbb) || (d[0] == 0x87 && d[1]
                == 0x86 && d[2] == 0x44 && d[3] == 0x56) {
                TransactionType::DEXTrade
            } else {
                TransactionType::ContractCall
            }
        } else {
            TransactionType::ContractCall
        }
    }
}

/// The bytes that an encrypted transaction's hash covers: the ciphertext and the big-endian
/// submission time in whole seconds.
pub open spec fn encrypted_hash_preimage(tx: EncryptedTransaction) -> Seq<u8> {
    tx.encrypted_data@ + be_u64(secs_of(tx.submission_time) as u64)
}

impl EncryptedTransaction {
    /// Keccak-256 of the ciphertext and the big-endian submission time in seconds.
    pub fn hash(&self) -> (h: TxHash)
        ensures
            h.0@ == keccak256(encrypted_hash_preimage(*self)),
    {
        let mut buf: Vec<u8> = Vec::new();
        extend_bytes(&mut buf, self.encrypted_data.as_slice());
        let secs = seconds_of(self.submission_time);
        let t = u64_to_be_bytes(secs as u64);
        extend_bytes(&mut buf, t.as_slice());
        assert(buf@ =~= encrypted_hash_preimage(*self));
        TxHash(keccak256_digest(buf.as_slice()))
    }
}

/// The result of an MEV analysis: the alerts that passed the confidence threshold, when
/// the analysis started (milliseconds since the epoch) and how many transactions it saw.
#[derive(Debug)]
pub struct DetectionResult {
    pub is_mev_free: bool,
    pub alerts: Vec<crate::detection::MEVAlert>,
    pub analysis_time: i64,
    pub transaction_count: usize,
}

impl DetectionResult {
    /// Whether any MEV was detected.
    pub fn is_mev_detected(&self) -> (r: bool)
        ensures
            r == !self.is_mev_free,
    {
        !self.is_mev_free
    }
}

/// How a transaction was protected: whether MEV was found, the savings in wei, when it
/// executed (milliseconds since the epoch) and the protections applied.
#[derive(Debug, Clone)]
pub struct ProtectionDetails {
    pub mev_detected: bool,
    pub savings_amount: u128,
    pub execution_time: Option<i64>,
    pub protection_methods: Vec<ProtectionMethod>,
}

/// Where a protected transaction stands; `id` is its 128-bit UUID.
#[derive(Debug, Clone)]
pub struct TransactionStatus {
    pub id: u128,
    pub status: ExecutionStatus,
    pub block_number: Option<u64>,
    pub block_hash: Option<Hash>,
    pub transaction_hash: Option<TxHash>,
    pub protection_details: ProtectionDetails,
}

} // verus!

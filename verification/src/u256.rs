//! Unsigned 256-bit amounts, as the 32-byte big-endian words of contract call data carry
//! them, held in two 128-bit limbs.
use vstd::prelude::*;
use num_bigint::BigUint;

verus! {

/// `256` raised to `n`.
pub open spec fn pow256(n: nat) -> nat
    decreases n,
{
    if n == 0 {
        1
    } else {
        256 * pow256((n - 1) as nat)
    }
}

/// The number that the big-endian bytes `s` spell.
pub open spec fn be_value(s: Seq<u8>) -> nat
    decreases s.len(),
{
    if s.len() == 0 {
        0
    } else {
        be_value(s.drop_last()) * 256 + s.last() as nat
    }
}

/// `2^128`, the weight of the high limb.
pub open spec fn limb() -> nat {
    0x1_0000_0000_0000_0000_0000_0000_0000_0000nat
}

/// `2^256`: every value of a `U256` lies below it.
pub open spec fn u256_bound() -> nat {
    limb() * limb()
}

proof fn lemma_pow256_positive(n: nat)
    ensures
        pow256(n) >= 1,
    decreases n,
{
    if n > 0 {
        lemma_pow256_positive((n - 1) as nat);
    }
}

proof fn lemma_pow256_16()
    ensures
        pow256(16) == limb(),
{
    reveal_with_fuel(pow256, 17);
}

proof fn lemma_pow256_add(a: nat, b: nat)
    ensures
        pow256(a + b) == pow256(a) * pow256(b),
    decreases b,
{
    if b == 0 {
        assert(pow256(0) == 1);
        assert(a + b == a);
        assert(pow256(a) * 1 == pow256(a));
    } else {
        lemma_pow256_add(a, (b - 1) as nat);
        let p = pow256(a);
        let q = pow256((b - 1) as nat);
        assert(pow256(b) == 256 * q);
        assert((a + (b - 1)) as nat == (a + b - 1) as nat);
        assert(pow256((a + b - 1) as nat) == p * q);
        assert(pow256(a + b) == 256 * pow256((a + b - 1) as nat));
        assert(256 * (p * q) == p * (256 * q)) by (nonlinear_arith);
    }
}

/// The value of `s` is below `256^|s|`.
proof fn lemma_be_value_bound(s: Seq<u8>)
    ensures
        be_value(s) < pow256(s.len()),
    decreases s.len(),
{
    if s.len() > 0 {
        let p = s.drop_last();
        lemma_be_value_bound(p);
        assert(pow256(s.len()) == 256 * pow256(p.len()));
        let v = be_value(p);
        let q = pow256(p.len());
        let l = s.last() as nat;
        assert(v * 256 + l < 256 * q) by (nonlinear_arith)
            requires
                v < q,
                l < 256,
        ;
    }
}

/// The value of a concatenation: the front shifted by the back's length, plus the back.
proof fn lemma_be_value_concat(a: Seq<u8>, b: Seq<u8>)
    ensures
        be_value(a + b) == be_value(a) * pow256(b.len()) + be_value(b),
    decreases b.len(),
{
    if b.len() == 0 {
        assert(a + b =~= a);
        assert(pow256(0) == 1);
        assert(be_value(b) == 0);
        assert(be_value(a) * 1 == be_value(a));
    } else {
        let b0 = b.drop_last();
        lemma_be_value_concat(a, b0);
        assert((a + b).drop_last() =~= a + b0);
        assert((a + b).last() == b.last());
        assert(be_value(a + b) == be_value(a + b0) * 256 + b.last() as nat);
        assert(be_value(b) == be_value(b0) * 256 + b.last() as nat);
        let va = be_value(a);
        let q = pow256(b0.len());
        let vb = be_value(b0);
        assert(pow256(b.len()) == 256 * q);
        assert((va * q + vb) * 256 + b.last() as nat == va * (256 * q) + (vb * 256 + b.last() as nat))
            by (nonlinear_arith);
    }
}

/// The big-endian value of a prefix of 16 bytes, computed into a `u128`.
fn be_u128(b: &[u8], start: usize) -> (r: u128)
    requires
        start + 16 <= b@.len(),
    ensures
        r as nat == be_value(b@.subrange(start as int, start + 16)),
{
    let mut acc: u128 = 0;
    let mut i: usize = 0;
    let n: usize = b.len();
    while i < 16
        invariant
            i <= 16,
            n == b@.len(),
            start + 16 <= b@.len(),
            acc as nat == be_value(b@.subrange(start as int, start + i)),
        decreases 16 - i,
    {
        let ghost pre = b@.subrange(start as int, start + i);
        let ghost cur = b@.subrange(start as int, start + i + 1);
        proof {
            assert(cur.drop_last() =~= pre);
            lemma_be_value_bound(pre);
            assert(pow256(pre.len()) <= pow256(15)) by {
                lemma_pow256_add(pre.len(), (15 - pre.len()) as nat);
                lemma_pow256_positive((15 - pre.len()) as nat);
                assert(pow256(pre.len()) * 1 <= pow256(pre.len()) * pow256((15 - pre.len()) as nat))
                    by (nonlinear_arith)
                    requires
                        pow256((15 - pre.len()) as nat) >= 1,
                ;
            }
            lemma_pow256_16();
            assert(pow256(16) == 256 * pow256(15));
            assert(acc as nat * 256 + 255 < limb()) by (nonlinear_arith)
                requires
                    acc < pow256(15),
                    limb() == 256 * pow256(15),
            ;
        }
        let byte: u8 = b[start + i];
        assert(acc * 256 + 255 <= u128::MAX);
        let shifted: u128 = acc * 256;
        acc = shifted + byte as u128;
        i = i + 1;
    }
    acc
}

/// An unsigned 256-bit amount: `hi * 2^128 + lo`.
#[derive(Debug, Clone, Copy, PartialEq, Eq, Structural)]
pub struct U256 {
    pub hi: u128,
    pub lo: u128,
}

impl U256 {
    /// The number this amount stands for.
    pub open spec fn value(self) -> nat {
        self.hi as nat * limb() + self.lo as nat
    }

    /// Zero.
    pub fn zero() -> (r: Self)
        ensures
            r.value() == 0,
    {
        U256 { hi: 0, lo: 0 }
    }

    /// An amount that fits in 128 bits.
    pub fn from_u128(x: u128) -> (r: Self)
        ensures
            r.value() == x,
    {
        U256 { hi: 0, lo: x }
    }

    /// Whether the amount is zero.
    pub fn is_zero(&self) -> (r: bool)
        ensures
            r == (self.value() == 0),
    {
        self.hi == 0 && self.lo == 0
    }

    /// The amount that a 32-byte big-endian word spells.
    pub fn from_big_endian(word: &[u8]) -> (r: Self)
        requires
            word@.len() == 32,
        ensures
            r.value() == be_value(word@),
    {
        let hi = be_u128(word, 0);
        let lo = be_u128(word, 16);
        proof {
            let a = word@.subrange(0, 16);
            let b = word@.subrange(16, 32);
            assert(a + b =~= word@);
            lemma_be_value_concat(a, b);
            lemma_pow256_16();
        }
        U256 { hi, lo }
    }

    /// `self < other`.
    pub fn lt(&self, other: &Self) -> (r: bool)
        ensures
            r == (self.value() < other.value()),
    {
        proof {
            lemma_limb_order(self.hi as nat, self.lo as nat, other.hi as nat, other.lo as nat);
        }
        self.hi < other.hi || (self.hi == other.hi && self.lo < other.lo)
    }

    /// `self - other`, where `other` is not the larger.
    pub fn sub(&self, other: &Self) -> (r: Self)
        requires
            other.value() <= self.value(),
        ensures
            r.value() == self.value() - other.value(),
    {
        proof {
            lemma_limb_order(self.hi as nat, self.lo as nat, other.hi as nat, other.lo as nat);
        }
        if self.lo >= other.lo {
            U256 { hi: self.hi - other.hi, lo: self.lo - other.lo }
        } else {
            let lo = (u128::MAX - other.lo) + self.lo + 1;
            proof {
                assert(self.hi > other.hi);
            }
            U256 { hi: self.hi - other.hi - 1, lo }
        }
    }

    /// The 32 big-endian bytes of the amount.
    pub fn to_big_endian(&self) -> (r: Vec<u8>)
        ensures
            r@.len() == 32,
            be_value(r@) == self.value(),
    {
        let mut v: Vec<u8> = Vec::new();
        push_be_u128(&mut v, self.hi);
        let ghost v1 = v@;
        push_be_u128(&mut v, self.lo);
        proof {
            assert(v1.subrange(0, 16) =~= v1);
            assert(v@.subrange(0, 16) == v1);
            let a = v@.subrange(0, 16);
            let b = v@.subrange(16, 32);
            assert(a + b =~= v@);
            lemma_be_value_concat(a, b);
            lemma_pow256_16();
        }
        v
    }
}

/// Two-limb numbers compare as their limbs do, high limb first.
proof fn lemma_limb_order(h1: nat, l1: nat, h2: nat, l2: nat)
    requires
        l1 < limb(),
        l2 < limb(),
    ensures
        (h1 * limb() + l1 < h2 * limb() + l2) == (h1 < h2 || (h1 == h2 && l1 < l2)),
        (h1 * limb() + l1 <= h2 * limb() + l2) == (h1 < h2 || (h1 == h2 && l1 <= l2)),
{
    let b = limb();
    if h1 < h2 {
        assert(h1 * b + l1 < h2 * b + l2) by (nonlinear_arith)
            requires
                h1 < h2,
                l1 < b,
        ;
    } else if h1 > h2 {
        assert(h2 * b + l2 < h1 * b + l1) by (nonlinear_arith)
            requires
                h2 < h1,
                l2 < b,
        ;
    }
}

/// Appends the 16 big-endian bytes of `x`.
fn push_be_u128(v: &mut Vec<u8>, x: u128)
    ensures
        final(v)@.len() == old(v)@.len() + 16,
        final(v)@.subrange(0, old(v)@.len() as int) == old(v)@,
        be_value(final(v)@.subrange(old(v)@.len() as int, old(v)@.len() + 16int)) == x,
{
    let ghost start = v@.len();
    let mut bytes: [u8; 16] = [0u8; 16];
    let mut rest: u128 = x;
    let mut k: usize = 16;
    proof {
        lemma_pow256_16();
        assert(bytes@.subrange(16, 16) =~= Seq::<u8>::empty());
        assert(pow256(0) == 1);
        assert(be_value(bytes@.subrange(16, 16)) == 0);
        assert(x as nat * 1 == x as nat);
    }
    // bytes[k..16] holds the low 16 - k bytes of x; rest is what is left of x above them
    while k > 0
        invariant
            k <= 16,
            x as nat == rest as nat * pow256((16 - k) as nat) + be_value(bytes@.subrange(k as int, 16)),
            (rest as nat) < pow256(k as nat),
        decreases k,
    {
        let ghost old_bytes = bytes@;
        let digit = (rest % 256) as u8;
        let next = rest / 256;
        proof {
            let tail = old_bytes.subrange(k as int, 16);
            let r = rest as nat;
            assert(r == next as nat * 256 + digit as nat);
            assert(pow256((16 - k + 1) as nat) == 256 * pow256((16 - k) as nat));
            assert(pow256(k as nat) == 256 * pow256((k - 1) as nat));
            assert((next as nat) < pow256((k - 1) as nat)) by (nonlinear_arith)
                requires
                    r == next as nat * 256 + digit as nat,
                    r < 256 * pow256((k - 1) as nat),
            ;
            lemma_be_value_concat(seq![digit], tail);
            reveal_with_fuel(be_value, 2);
            assert(be_value(seq![digit]) == digit as nat) by {
                assert(seq![digit].drop_last() =~= Seq::<u8>::empty());
            }
            let p = pow256((16 - k) as nat);
            assert(r * p == next as nat * (256 * p) + digit as nat * p) by (nonlinear_arith)
                requires
                    r == next as nat * 256 + digit as nat,
            ;
        }
        bytes[k - 1] = digit;
        proof {
            assert(bytes@.subrange((k - 1) as int, 16) =~= seq![digit] + old_bytes.subrange(k as int, 16));
        }
        rest = next;
        k = k - 1;
    }
    proof {
        reveal_with_fuel(pow256, 1);
        assert(rest == 0);
        assert(bytes@.subrange(0, 16) =~= bytes@);
    }
    let mut i: usize = 0;
    while i < 16
        invariant
            i <= 16,
            v@.len() == start + i,
            v@.subrange(0, start as int) == old(v)@,
            start == old(v)@.len(),
            v@.subrange(start as int, start + i) == bytes@.subrange(0, i as int),
        decreases 16 - i,
    {
        let ghost before = v@;
        v.push(bytes[i]);
        proof {
            assert(v@.subrange(0, start as int) =~= before.subrange(0, start as int));
            assert(v@.subrange(start as int, start + i + 1) =~= bytes@.subrange(0, i + 1));
        }
        i = i + 1;
    }
}

/// What `BigUint::to_bytes_be` gives: the big-endian bytes without leading zeros, a single
/// zero byte for zero.
pub open spec fn minimal_be(s: Seq<u8>) -> bool {
    s.len() >= 1 && (s.len() > 1 ==> s[0] != 0)
}

/// `a * n / d` on big-endian byte strings, computed with `num_bigint::BigUint`
/// (`from_bytes_be`, `*`, `/`, `to_bytes_be`). Stated: the result spells
/// `be_value(a) * be_value(n) / be_value(d)` in the minimal big-endian form that
/// `to_bytes_be` documents. The division panics on a zero divisor, which `requires` leaves out.
#[verifier::external_body]
fn biguint_mul_div(a: &[u8], n: &[u8], d: &[u8]) -> (r: Vec<u8>)
    requires
        be_value(d@) > 0,
    ensures
        be_value(r@) == be_value(a@) * be_value(n@) / be_value(d@),
        minimal_be(r@),
{
    (BigUint::from_bytes_be(a) * BigUint::from_bytes_be(n) / BigUint::from_bytes_be(d)).to_bytes_be()
}

/// Leading zeros do not change the value.
proof fn lemma_be_value_leading_zero(s: Seq<u8>)
    requires
        s.len() >= 1,
        s[0] == 0,
    ensures
        be_value(s) == be_value(s.drop_first()),
{
    lemma_be_value_concat(seq![0u8], s.drop_first());
    assert(seq![0u8] + s.drop_first() =~= s);
    assert(seq![0u8].drop_last() =~= Seq::<u8>::empty());
    assert(be_value(seq![0u8]) == be_value(Seq::<u8>::empty()) * 256 + 0);
    assert(be_value(seq![0u8]) == 0);
    let p = pow256(s.drop_first().len());
    assert(0 * p == 0) by (nonlinear_arith);
}

/// Two encodings of one length that spell the same value are the same bytes.
proof fn lemma_be_value_injective(s1: Seq<u8>, s2: Seq<u8>)
    requires
        s1.len() == s2.len(),
        be_value(s1) == be_value(s2),
    ensures
        s1 == s2,
    decreases s1.len(),
{
    if s1.len() > 0 {
        let x1 = be_value(s1.drop_last());
        let x2 = be_value(s2.drop_last());
        let l1 = s1.last() as int;
        let l2 = s2.last() as int;
        assert(x1 * 256 + l1 == x2 * 256 + l2);
        assert(x1 == x2 && l1 == l2);
        lemma_be_value_injective(s1.drop_last(), s2.drop_last());
        assert(s1 =~= s1.drop_last().push(s1.last()));
        assert(s2 =~= s2.drop_last().push(s2.last()));
    } else {
        assert(s1 =~= s2);
    }
}

/// A minimal encoding of more than one byte spells at least `256^(len - 1)`.
proof fn lemma_minimal_lower(s: Seq<u8>)
    requires
        minimal_be(s),
        s.len() > 1,
    ensures
        be_value(s) >= pow256((s.len() - 1) as nat),
{
    let a = s.subrange(0, 1);
    let b = s.subrange(1, s.len() as int);
    assert(a + b =~= s);
    lemma_be_value_concat(a, b);
    reveal_with_fuel(be_value, 2);
    assert(a.drop_last() =~= Seq::<u8>::empty());
    assert(be_value(a) == s[0] as nat);
    let p = pow256(b.len());
    assert(be_value(s) >= p) by (nonlinear_arith)
        requires
            be_value(s) == s[0] as nat * p + be_value(b),
            s[0] as nat >= 1,
    ;
}

/// `256^a <= 256^b` for `a <= b`.
proof fn lemma_pow256_monotone(a: nat, b: nat)
    requires
        a <= b,
    ensures
        pow256(a) <= pow256(b),
{
    lemma_pow256_add(a, (b - a) as nat);
    lemma_pow256_positive((b - a) as nat);
    lemma_pow256_positive(a);
    let p = pow256(a);
    let q = pow256((b - a) as nat);
    assert((a + (b - a)) as nat == b);
    assert(p <= p * q) by (nonlinear_arith)
        requires
            q >= 1,
            p >= 1,
    ;
}

/// A value has one minimal big-endian encoding.
pub proof fn lemma_minimal_unique(s1: Seq<u8>, s2: Seq<u8>)
    requires
        minimal_be(s1),
        minimal_be(s2),
        be_value(s1) == be_value(s2),
    ensures
        s1 == s2,
{
    if s1.len() < s2.len() {
        lemma_minimal_lower(s2);
        lemma_be_value_bound(s1);
        lemma_pow256_monotone(s1.len(), (s2.len() - 1) as nat);
    } else if s2.len() < s1.len() {
        lemma_minimal_lower(s1);
        lemma_be_value_bound(s2);
        lemma_pow256_monotone(s2.len(), (s1.len() - 1) as nat);
    } else {
        lemma_be_value_injective(s1, s2);
    }
}

/// A minimal encoding of a value below `256^32` has at most 32 bytes.
proof fn lemma_minimal_len(s: Seq<u8>)
    requires
        minimal_be(s),
        be_value(s) < pow256(32),
    ensures
        s.len() <= 32,
{
    if s.len() > 32 {
        let a = s.subrange(0, 1);
        let b = s.subrange(1, s.len() as int);
        assert(a + b =~= s);
        lemma_be_value_concat(a, b);
        reveal_with_fuel(be_value, 2);
        assert(a.drop_last() =~= Seq::<u8>::empty());
        assert(be_value(a) == s[0] as nat);
        lemma_pow256_add(32, (b.len() - 32) as nat);
        lemma_pow256_positive((b.len() - 32) as nat);
        let p = pow256(b.len());
        assert(p >= pow256(32)) by (nonlinear_arith)
            requires
                p == pow256(32) * pow256((b.len() - 32) as nat),
                pow256((b.len() - 32) as nat) >= 1,
                pow256(32) >= 1,
        ;
        lemma_pow256_positive(32);
        assert(be_value(s) >= p) by (nonlinear_arith)
            requires
                be_value(s) == s[0] as nat * p + be_value(b),
                s[0] as nat >= 1,
        ;
    }
}

/// Left-pads a big-endian byte string of at most 32 bytes to a 32-byte word.
fn pad_to_word(s: &Vec<u8>) -> (r: Vec<u8>)
    requires
        s@.len() <= 32,
    ensures
        r@.len() == 32,
        be_value(r@) == be_value(s@),
{
    let mut r: Vec<u8> = Vec::new();
    let pad = 32 - s.len();
    let mut i: usize = 0;
    while i < pad
        invariant
            i <= pad,
            pad == 32 - s@.len(),
            r@.len() == i,
            forall|j: int| 0 <= j < i ==> r@[j] == 0,
        decreases pad - i,
    {
        r.push(0);
        i = i + 1;
    }
    let mut j: usize = 0;
    while j < s.len()
        invariant
            j <= s@.len(),
            pad == 32 - s@.len(),
            r@.len() == pad + j,
            forall|k: int| 0 <= k < pad ==> r@[k] == 0,
            r@.subrange(pad as int, pad + j) == s@.subrange(0, j as int),
        decreases s@.len() - j,
    {
        let ghost before = r@;
        r.push(s[j]);
        proof {
            assert(r@.subrange(pad as int, pad + j + 1) =~= s@.subrange(0, j + 1));
        }
        j = j + 1;
    }
    proof {
        assert(s@.subrange(0, s@.len() as int) =~= s@);
        lemma_zero_prefix(r@, pad as nat);
        assert(r@.subrange(pad as int, 32) =~= s@);
    }
    r
}

/// A prefix of zero bytes does not change the value.
proof fn lemma_zero_prefix(s: Seq<u8>, n: nat)
    requires
        n <= s.len(),
        forall|k: int| 0 <= k < n ==> s[k] == 0,
    ensures
        be_value(s) == be_value(s.subrange(n as int, s.len() as int)),
    decreases n,
{
    if n > 0 {
        lemma_be_value_leading_zero(s);
        let t = s.drop_first();
        assert forall|k: int| 0 <= k < n - 1 implies t[k] == 0 by {
            assert(t[k] == s[k + 1]);
        }
        lemma_zero_prefix(t, (n - 1) as nat);
        assert(t.subrange((n - 1) as int, t.len() as int) =~= s.subrange(n as int, s.len() as int));
    } else {
        assert(s.subrange(0, s.len() as int) =~= s);
    }
}

/// `a * n / d` where the result fits in 256 bits.
pub fn mul_div(a: &U256, n: &U256, d: &U256) -> (r: U256)
    requires
        d.value() > 0,
        a.value() * n.value() / d.value() < u256_bound(),
    ensures
        r.value() == a.value() * n.value() / d.value(),
{
    let ab = a.to_big_endian();
    let nb = n.to_big_endian();
    let db = d.to_big_endian();
    let q = biguint_mul_div(ab.as_slice(), nb.as_slice(), db.as_slice());
    proof {
        lemma_pow256_add(16, 16);
        lemma_pow256_16();
        lemma_minimal_len(q@);
    }
    let w = pad_to_word(&q);
    U256::from_big_endian(w.as_slice())
}

} // verus!

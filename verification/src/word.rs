//! 256-bit words and 160-bit addresses, stored big-endian.
//!
//! A word's numeric meaning is `be_nat` of its byte view; every operation
//! is specified against that interpretation.

use vstd::prelude::*;
use vstd::array::ArrayAdditionalExecFns;

verus! {

/// Value of a big-endian byte string.
pub open spec fn be_nat(s: Seq<u8>) -> nat
    decreases s.len(),
{
    if s.len() == 0 {
        0
    } else {
        (be_nat(s.drop_last()) * 256 + s.last()) as nat
    }
}

/// 256^n.
pub open spec fn pow256(n: nat) -> nat
    decreases n,
{
    if n == 0 {
        1
    } else {
        256 * pow256((n - 1) as nat)
    }
}

pub proof fn lemma_pow256_positive(n: nat)
    ensures
        pow256(n) >= 1,
    decreases n,
{
    if n > 0 {
        lemma_pow256_positive((n - 1) as nat);
    }
}

/// A byte string's value is below 256^len.
pub proof fn lemma_be_nat_bound(s: Seq<u8>)
    ensures
        be_nat(s) < pow256(s.len()),
    decreases s.len(),
{
    if s.len() == 0 {
    } else {
        lemma_be_nat_bound(s.drop_last());
        assert(be_nat(s.drop_last()) * 256 <= (pow256((s.len() - 1) as nat) - 1) * 256) by (nonlinear_arith)
            requires
                be_nat(s.drop_last()) <= pow256((s.len() - 1) as nat) - 1,
        ;
    }
}

/// Splitting a byte string at `i` splits its value.
pub proof fn lemma_be_nat_split(s: Seq<u8>, i: int)
    requires
        0 <= i <= s.len(),
    ensures
        be_nat(s) == be_nat(s.take(i)) * pow256((s.len() - i) as nat) + be_nat(s.skip(i)),
    decreases s.len() - i,
{
    if i == s.len() {
        assert(s.take(i) =~= s);
        assert(s.skip(i) =~= Seq::<u8>::empty());
        assert(pow256((s.len() - i) as nat) == 1);
        assert(be_nat(Seq::<u8>::empty()) == 0);
        assert(be_nat(s) * 1 == be_nat(s)) by (nonlinear_arith);
    } else {
        lemma_be_nat_split(s.drop_last(), i);
        assert(s.drop_last().take(i) =~= s.take(i));
        assert(s.skip(i).drop_last() =~= s.drop_last().skip(i));
        assert(s.skip(i).last() == s.last());
        let p = pow256((s.drop_last().len() - i) as nat);
        let a = be_nat(s.take(i));
        let b = be_nat(s.drop_last().skip(i));
        let l = s.last() as nat;
        assert(be_nat(s.drop_last()) == a * p + b);
        assert(be_nat(s) == be_nat(s.drop_last()) * 256 + l);
        assert(be_nat(s.skip(i)) == b * 256 + l);
        assert((a * p + b) * 256 + l == a * (256 * p) + (b * 256 + l)) by (nonlinear_arith);
        assert(pow256((s.len() - i) as nat) == 256 * p);
        assert(be_nat(s) == a * (256 * p) + be_nat(s.skip(i)));
        assert(a * (256 * p) == a * pow256((s.len() - i) as nat));
    }
}

/// An all-zero byte string has value 0.
pub proof fn lemma_be_nat_zero(s: Seq<u8>)
    requires
        forall|j: int| 0 <= j < s.len() ==> s[j] == 0,
    ensures
        be_nat(s) == 0,
    decreases s.len(),
{
    if s.len() > 0 {
        lemma_be_nat_zero(s.drop_last());
    }
}

/// With equal prefixes, the first differing byte decides the order.
pub proof fn lemma_be_nat_cmp(s1: Seq<u8>, s2: Seq<u8>, i: int)
    requires
        s1.len() == s2.len(),
        0 <= i < s1.len(),
        s1.take(i) =~= s2.take(i),
        s1[i] < s2[i],
    ensures
        be_nat(s1) < be_nat(s2),
{
    let n = s1.len() as int;
    let p = pow256((n - i) as nat);
    let q = pow256((n - i - 1) as nat);
    lemma_be_nat_split(s1, i);
    lemma_be_nat_split(s2, i);
    lemma_be_nat_split(s1.skip(i), 1);
    lemma_be_nat_split(s2.skip(i), 1);
    assert(s1.skip(i).take(1) =~= seq![s1[i]]);
    assert(s2.skip(i).take(1) =~= seq![s2[i]]);
    assert(be_nat(Seq::<u8>::empty()) == 0);
    assert(be_nat(seq![s1[i]]) == s1[i]) by {
        assert(seq![s1[i]].drop_last() =~= Seq::<u8>::empty());
        assert(seq![s1[i]].last() == s1[i]);
    }
    assert(be_nat(seq![s2[i]]) == s2[i]) by {
        assert(seq![s2[i]].drop_last() =~= Seq::<u8>::empty());
        assert(seq![s2[i]].last() == s2[i]);
    }
    lemma_be_nat_bound(s1.skip(i).skip(1));
    assert(s1.skip(i).skip(1).len() == n - i - 1);
    assert(be_nat(s1.skip(i)) == s1[i] * q + be_nat(s1.skip(i).skip(1)));
    assert(be_nat(s2.skip(i)) == s2[i] * q + be_nat(s2.skip(i).skip(1)));
    lemma_pow256_positive((n - i - 1) as nat);
    assert(s1[i] * q + be_nat(s1.skip(i).skip(1)) < s2[i] * q) by (nonlinear_arith)
        requires
            s1[i] < s2[i],
            be_nat(s1.skip(i).skip(1)) < q,
            q >= 1,
    ;
    assert(be_nat(s2.skip(i).skip(1)) >= 0);
}

/// Equal values mean equal bytes, for strings of one length.
pub proof fn lemma_be_nat_inj(s1: Seq<u8>, s2: Seq<u8>)
    requires
        s1.len() == s2.len(),
        be_nat(s1) == be_nat(s2),
    ensures
        s1 =~= s2,
{
    if !(s1 =~= s2) {
        let i = choose|i: int| 0 <= i < s1.len() && s1[i] != s2[i];
        lemma_least_diff(s1, s2, i);
        let j = least_diff(s1, s2, i);
        if s1[j] < s2[j] {
            lemma_be_nat_cmp(s1, s2, j);
        } else {
            lemma_be_nat_cmp(s2, s1, j);
        }
    }
}

/// The least index below `i` (inclusive) where `s1` and `s2` differ.
spec fn least_diff(s1: Seq<u8>, s2: Seq<u8>, i: int) -> int
    decreases i,
{
    if exists|t: int| 0 <= t < i && s1[t] != s2[t] {
        least_diff(s1, s2, choose|t: int| 0 <= t < i && s1[t] != s2[t])
    } else {
        i
    }
}

proof fn lemma_least_diff(s1: Seq<u8>, s2: Seq<u8>, i: int)
    requires
        0 <= i < s1.len(),
        s1.len() == s2.len(),
        s1[i] != s2[i],
    ensures
        0 <= least_diff(s1, s2, i) <= i,
        s1[least_diff(s1, s2, i)] != s2[least_diff(s1, s2, i)],
        s1.take(least_diff(s1, s2, i)) =~= s2.take(least_diff(s1, s2, i)),
    decreases i,
{
    if exists|t: int| 0 <= t < i && s1[t] != s2[t] {
        let t = choose|t: int| 0 <= t < i && s1[t] != s2[t];
        lemma_least_diff(s1, s2, t);
    }
}

pub proof fn lemma_pow256_mono(a: nat, b: nat)
    requires
        a <= b,
    ensures
        pow256(a) <= pow256(b),
    decreases b,
{
    if a < b {
        lemma_pow256_mono(a, (b - 1) as nat);
        lemma_pow256_positive((b - 1) as nat);
    }
}

pub proof fn lemma_pow256_64()
    ensures
        pow256(8) == 0x1_0000_0000_0000_0000,
{
    assert(pow256(0) == 1);
    assert(pow256(1) == 256);
    assert(pow256(2) == 0x1_0000);
    assert(pow256(3) == 0x100_0000);
    assert(pow256(4) == 0x1_0000_0000);
    assert(pow256(5) == 0x100_0000_0000);
    assert(pow256(6) == 0x1_0000_0000_0000);
    assert(pow256(7) == 0x100_0000_0000_0000);
    assert(pow256(8) == 0x1_0000_0000_0000_0000);
}

pub proof fn lemma_pow256_128()
    ensures
        pow256(16) == 0x1_0000_0000_0000_0000_0000_0000_0000_0000,
{
    lemma_pow256_64();
    assert(pow256(9) == 0x100_0000_0000_0000_0000);
    assert(pow256(10) == 0x1_0000_0000_0000_0000_0000);
    assert(pow256(11) == 0x100_0000_0000_0000_0000_0000);
    assert(pow256(12) == 0x1_0000_0000_0000_0000_0000_0000);
    assert(pow256(13) == 0x100_0000_0000_0000_0000_0000_0000);
    assert(pow256(14) == 0x1_0000_0000_0000_0000_0000_0000_0000);
    assert(pow256(15) == 0x100_0000_0000_0000_0000_0000_0000_0000);
    assert(pow256(16) == 0x1_0000_0000_0000_0000_0000_0000_0000_0000);
}

/// Peeling the head byte off a suffix.
pub proof fn lemma_be_nat_head(s: Seq<u8>, i: int)
    requires
        0 <= i < s.len(),
    ensures
        be_nat(s.skip(i)) == s[i] * pow256((s.len() - i - 1) as nat) + be_nat(s.skip(i + 1)),
{
    lemma_be_nat_split(s.skip(i), 1);
    assert(s.skip(i).take(1) =~= seq![s[i]]);
    assert(s.skip(i).skip(1) =~= s.skip(i + 1));
    assert(be_nat(Seq::<u8>::empty()) == 0);
    assert(be_nat(seq![s[i]]) == s[i]) by {
        assert(seq![s[i]].drop_last() =~= Seq::<u8>::empty());
        assert(seq![s[i]].last() == s[i]);
    }
}

/// A nonzero byte among the high 24 puts the value beyond 64 bits.
proof fn lemma_high_byte_large(s: Seq<u8>, k: int)
    requires
        s.len() == 32,
        0 <= k < 24,
        s[k] != 0,
    ensures
        be_nat(s) >= pow256(8),
{
    lemma_be_nat_split(s, k);
    lemma_be_nat_head(s, k);
    lemma_pow256_mono(8, (31 - k) as nat);
    lemma_pow256_positive((31 - k) as nat);
    assert(s[k] * pow256((31 - k) as nat) >= pow256((31 - k) as nat)) by (nonlinear_arith)
        requires
            s[k] >= 1,
            pow256((31 - k) as nat) >= 1,
    ;
    assert(be_nat(s.take(k)) * pow256((s.len() - k) as nat) >= 0);
}

/// A 256-bit unsigned word, big-endian.
#[derive(Clone, Copy, Debug)]
pub struct U256 {
    pub octets: [u8; 32],
}

/// A 160-bit account address.
#[derive(Clone, Copy, Debug)]
pub struct Address {
    pub octets: [u8; 20],
}

impl View for U256 {
    type V = Seq<u8>;

    open spec fn view(&self) -> Seq<u8> {
        self.octets@
    }
}

impl View for Address {
    type V = Seq<u8>;

    open spec fn view(&self) -> Seq<u8> {
        self.octets@
    }
}

impl U256 {
    /// Numeric value of this word.
    pub open spec fn as_nat(self) -> nat {
        be_nat(self@)
    }

    pub open spec fn spec_is_zero(self) -> bool {
        self.as_nat() == 0
    }

    pub fn zero() -> (r: U256)
        ensures
            r.as_nat() == 0,
            r@ =~= Seq::<u8>::new(32, |j: int| 0u8),
    {
        let octets = [0u8; 32];
        proof {
            assert(octets@ =~= Seq::<u8>::new(32, |j: int| 0u8));
            lemma_be_nat_zero(octets@);
        }
        U256 { octets }
    }

    pub fn is_zero(&self) -> (r: bool)
        ensures
            r == (self.as_nat() == 0),
    {
        let mut j: usize = 0;
        while j < 32
            invariant
                j <= 32,
                forall|k: int| 0 <= k < j ==> self@[k] == 0,
            decreases 32 - j,
        {
            if self.octets[j] != 0 {
                proof {
                    let zs = Seq::<u8>::new(32, |t: int| 0u8);
                    lemma_be_nat_zero(zs);
                    lemma_be_nat_cmp(zs, self@, j as int);
                    assert(zs.take(j as int) =~= self@.take(j as int));
                }
                return false;
            }
            j += 1;
        }
        proof {
            lemma_be_nat_zero(self@);
        }
        true
    }

    /// Byte-wise equality decides numeric equality.
    pub fn eq_word(&self, other: &U256) -> (r: bool)
        ensures
            r == (self@ == other@),
            r == (self.as_nat() == other.as_nat()),
    {
        let mut j: usize = 0;
        while j < 32
            invariant
                j <= 32,
                forall|k: int| 0 <= k < j ==> self@[k] == other@[k],
            decreases 32 - j,
        {
            if self.octets[j] != other.octets[j] {
                proof {
                    if self@[j as int] < other@[j as int] {
                        lemma_be_nat_cmp(self@, other@, j as int);
                        assert(self@.take(j as int) =~= other@.take(j as int));
                    } else {
                        lemma_be_nat_cmp(other@, self@, j as int);
                        assert(other@.take(j as int) =~= self@.take(j as int));
                    }
                }
                return false;
            }
            j += 1;
        }
        proof {
            assert(self@ =~= other@);
        }
        true
    }

    /// Numeric strict order, by the first differing byte.
    pub fn lt(&self, other: &U256) -> (r: bool)
        ensures
            r == (self.as_nat() < other.as_nat()),
    {
        let mut j: usize = 0;
        while j < 32
            invariant
                j <= 32,
                forall|k: int| 0 <= k < j ==> self@[k] == other@[k],
            decreases 32 - j,
        {
            if self.octets[j] < other.octets[j] {
                proof {
                    lemma_be_nat_cmp(self@, other@, j as int);
                    assert(self@.take(j as int) =~= other@.take(j as int));
                }
                return true;
            }
            if self.octets[j] > other.octets[j] {
                proof {
                    lemma_be_nat_cmp(other@, self@, j as int);
                    assert(other@.take(j as int) =~= self@.take(j as int));
                }
                return false;
            }
            j += 1;
        }
        proof {
            assert(self@ =~= other@);
        }
        false
    }

    /// Sum, or `None` past 2^256.
    pub fn checked_add(&self, other: &U256) -> (r: Option<U256>)
        ensures
            r is Some <==> self.as_nat() + other.as_nat() < pow256(32),
            r is Some ==> r->0.as_nat() == self.as_nat() + other.as_nat(),
    {
        let mut out = [0u8; 32];
        let mut carry: u16 = 0;
        let mut i: usize = 32;
        while i > 0
            invariant
                i <= 32,
                carry <= 1,
                be_nat(self@.skip(i as int)) + be_nat(other@.skip(i as int))
                    == carry * pow256((32 - i) as nat) + be_nat(out@.skip(i as int)),
            decreases i,
        {
            proof {
                lemma_be_nat_head(self@, i - 1);
                lemma_be_nat_head(other@, i - 1);
            }
            let ghost old_out = out@;
            let ghost old_carry = carry as nat;
            i -= 1;
            let sum: u16 = self.octets[i] as u16 + other.octets[i] as u16 + carry;
            out[i] = (sum % 256) as u8;
            carry = sum / 256;
            proof {
                let j = i as int;
                let p = pow256((31 - j) as nat);
                assert(out@.skip(j + 1) =~= old_out.skip(j + 1));
                lemma_be_nat_head(out@, j);
                assert(pow256((32 - j) as nat) == 256 * p);
                let a = self@[j] as nat;
                let b = other@[j] as nat;
                let lo = (sum % 256) as nat;
                let hi = (carry) as nat;
                assert(a + b + old_carry == hi * 256 + lo);
                assert((a + b + old_carry) * p == (hi * 256 + lo) * p) by (nonlinear_arith)
                    requires
                        a + b + old_carry == hi * 256 + lo,
                ;
                assert((a + b + old_carry) * p == a * p + b * p + old_carry * p) by (nonlinear_arith);
                assert((hi * 256 + lo) * p == hi * (256 * p) + lo * p) by (nonlinear_arith);
            }
        }
        proof {
            assert(self@.skip(0) =~= self@);
            assert(other@.skip(0) =~= other@);
            assert(out@.skip(0) =~= out@);
            lemma_be_nat_bound(out@);
            if carry == 1 {
                lemma_pow256_positive(32);
            }
        }
        if carry == 0 {
            Some(U256 { octets: out })
        } else {
            None
        }
    }

    /// Difference, or `None` when it would go below zero.
    pub fn checked_sub(&self, other: &U256) -> (r: Option<U256>)
        ensures
            r is Some <==> other.as_nat() <= self.as_nat(),
            r is Some ==> r->0.as_nat() + other.as_nat() == self.as_nat(),
    {
        let mut out = [0u8; 32];
        let mut borrow: u16 = 0;
        let mut i: usize = 32;
        while i > 0
            invariant
                i <= 32,
                borrow <= 1,
                be_nat(self@.skip(i as int)) + borrow * pow256((32 - i) as nat)
                    == be_nat(other@.skip(i as int)) + be_nat(out@.skip(i as int)),
            decreases i,
        {
            proof {
                lemma_be_nat_head(self@, i - 1);
                lemma_be_nat_head(other@, i - 1);
            }
            let ghost old_out = out@;
            let ghost old_borrow = borrow as nat;
            i -= 1;
            let d: u16 = 256 + self.octets[i] as u16 - other.octets[i] as u16 - borrow;
            out[i] = (d % 256) as u8;
            borrow = if d < 256 { 1 } else { 0 };
            proof {
                let j = i as int;
                let p = pow256((31 - j) as nat);
                assert(out@.skip(j + 1) =~= old_out.skip(j + 1));
                lemma_be_nat_head(out@, j);
                assert(pow256((32 - j) as nat) == 256 * p);
                let a = self@[j] as nat;
                let b = other@[j] as nat;
                let o = (d % 256) as nat;
                let nb = borrow as nat;
                assert(a + nb * 256 == b + o + old_borrow);
                assert((a + nb * 256) * p == (b + o + old_borrow) * p) by (nonlinear_arith)
                    requires
                        a + nb * 256 == b + o + old_borrow,
                ;
                assert((a + nb * 256) * p == a * p + nb * (256 * p)) by (nonlinear_arith);
                assert((b + o + old_borrow) * p == b * p + o * p + old_borrow * p) by (nonlinear_arith);
            }
        }
        proof {
            assert(self@.skip(0) =~= self@);
            assert(other@.skip(0) =~= other@);
            assert(out@.skip(0) =~= out@);
            lemma_be_nat_bound(out@);
            if borrow == 1 {
                lemma_pow256_positive(32);
            }
        }
        if borrow == 0 {
            Some(U256 { octets: out })
        } else {
            None
        }
    }

    pub fn from_u64(v: u64) -> (r: U256)
        ensures
            r.as_nat() == v,
    {
        let mut out = [0u8; 32];
        let mut x: u64 = v;
        let mut i: usize = 32;
        proof {
            lemma_pow256_64();
            assert(out@.skip(32) =~= Seq::<u8>::empty());
            assert(be_nat(Seq::<u8>::empty()) == 0);
            assert(pow256(0) == 1);
            assert(be_nat(out@.skip(32)) == 0);
            assert(x * pow256(0) == x * 1);
            assert(x * 1 == x) by (nonlinear_arith);
            assert(v == x * pow256(0) + be_nat(out@.skip(32)));
        }
        while i > 24
            invariant
                24 <= i <= 32,
                v == x * pow256((32 - i) as nat) + be_nat(out@.skip(i as int)),
                x < pow256((i - 24) as nat),
                forall|k: int| 0 <= k < i ==> out@[k] == 0,
            decreases i,
        {
            let ghost old_out = out@;
            let ghost old_x = x as nat;
            i -= 1;
            out[i] = (x % 256) as u8;
            x = x / 256;
            proof {
                let j = i as int;
                let p = pow256((31 - j) as nat);
                assert(out@.skip(j + 1) =~= old_out.skip(j + 1));
                lemma_be_nat_head(out@, j);
                assert(pow256((32 - j) as nat) == 256 * p);
                let lo = old_x % 256;
                let hi = x as nat;
                let sfx = be_nat(old_out.skip(j + 1));
                assert(v == old_x * p + sfx);
                assert(old_x == hi * 256 + lo);
                assert(old_x * p == hi * (256 * p) + lo * p) by (nonlinear_arith)
                    requires
                        old_x == hi * 256 + lo,
                ;
                assert(out@[j] == lo);
                assert(be_nat(out@.skip(j)) == lo * p + sfx);
                assert(v == hi * pow256((32 - j) as nat) + be_nat(out@.skip(j)));
                assert(hi < pow256((j - 24) as nat)) by (nonlinear_arith)
                    requires
                        old_x < pow256(((j + 1) - 24) as nat),
                        pow256(((j + 1) - 24) as nat) == 256 * pow256((j - 24) as nat),
                        hi == old_x / 256,
                ;
            }
        }
        proof {
            assert(x == 0);
            lemma_be_nat_split(out@, 24);
            lemma_be_nat_zero(out@.take(24));
            assert(v == be_nat(out@.skip(24)));
            assert(be_nat(out@) == be_nat(out@.take(24)) * pow256(8) + be_nat(out@.skip(24)));
        }
        U256 { octets: out }
    }

    /// The value as a `u64`, or `None` past 64 bits.
    #[verifier::rlimit(30)]
    pub fn to_u64(&self) -> (r: Option<u64>)
        ensures
            r is Some <==> self.as_nat() <= u64::MAX,
            r is Some ==> r->0 == self.as_nat(),
    {
        let mut k: usize = 0;
        while k < 24
            invariant
                k <= 24,
                forall|t: int| 0 <= t < k ==> self@[t] == 0,
            decreases 24 - k,
        {
            if self.octets[k] != 0 {
                proof {
                    lemma_high_byte_large(self@, k as int);
                    lemma_pow256_64();
                }
                return None;
            }
            k += 1;
        }
        let mut v: u64 = 0;
        let mut j: usize = 24;
        proof {
            assert(self@.subrange(24, 24) =~= Seq::<u8>::empty());
        }
        while j < 32
            invariant
                24 <= j <= 32,
                v == be_nat(self@.subrange(24, j as int)),
                v < pow256((j - 24) as nat),
            decreases 32 - j,
        {
            proof {
                lemma_pow256_mono((j - 24) as nat, 7);
                lemma_pow256_64();
                assert(pow256(7) * 256 == pow256(8)) by (nonlinear_arith)
                    requires
                        pow256(8) == 256 * pow256(7),
                ;
                assert(v * 256 < pow256(7) * 256) by (nonlinear_arith)
                    requires
                        (v as nat) < pow256(7),
                ;
                assert(self@.subrange(24, j + 1).drop_last() =~= self@.subrange(24, j as int));
            }
            v = v * 256 + self.octets[j] as u64;
            proof {
                assert(v < pow256((j + 1 - 24) as nat)) by (nonlinear_arith)
                    requires
                        v == be_nat(self@.subrange(24, j as int)) * 256 + self@[j as int],
                        be_nat(self@.subrange(24, j as int)) < pow256((j - 24) as nat),
                        pow256((j + 1 - 24) as nat) == 256 * pow256((j - 24) as nat),
                        self@[j as int] < 256,
                ;
            }
            j += 1;
        }
        proof {
            lemma_be_nat_split(self@, 24);
            lemma_be_nat_zero(self@.take(24));
            assert(self@.subrange(24, 32) =~= self@.skip(24));
            lemma_pow256_64();
            lemma_be_nat_bound(self@.skip(24));
            assert(be_nat(self@.take(24)) * pow256(8) == 0) by (nonlinear_arith)
                requires
                    be_nat(self@.take(24)) == 0,
            ;
            assert(be_nat(self@) == be_nat(self@.skip(24)));
            assert(v == be_nat(self@));
        }
        Some(v)
    }

    /// The value as a `usize` index, or `None` when it does not fit.
    pub fn to_usize(&self) -> (r: Option<usize>)
        ensures
            r is Some <==> self.as_nat() <= usize::MAX,
            r is Some ==> r->0 == self.as_nat(),
    {
        match self.to_u64() {
            Some(v) => {
                if v <= usize::MAX as u64 {
                    Some(v as usize)
                } else {
                    None
                }
            },
            None => None,
        }
    }

    /// A word from a 128-bit value.
    pub fn from_u128(v: u128) -> (r: U256)
        ensures
            r.as_nat() == v,
    {
        let mut out = [0u8; 32];
        let mut x: u128 = v;
        let mut i: usize = 32;
        proof {
            lemma_pow256_128();
            assert(out@.skip(32) =~= Seq::<u8>::empty());
            assert(be_nat(Seq::<u8>::empty()) == 0);
            assert(pow256(0) == 1);
            assert(be_nat(out@.skip(32)) == 0);
            assert(x * pow256(0) == x * 1);
            assert(x * 1 == x) by (nonlinear_arith);
            assert(v == x * pow256(0) + be_nat(out@.skip(32)));
        }
        while i > 16
            invariant
                16 <= i <= 32,
                v == x * pow256((32 - i) as nat) + be_nat(out@.skip(i as int)),
                x < pow256((i - 16) as nat),
                forall|k: int| 0 <= k < i ==> out@[k] == 0,
            decreases i,
        {
            let ghost old_out = out@;
            let ghost old_x = x as nat;
            i -= 1;
            out[i] = (x % 256) as u8;
            x = x / 256;
            proof {
                let j = i as int;
                let p = pow256((31 - j) as nat);
                assert(out@.skip(j + 1) =~= old_out.skip(j + 1));
                lemma_be_nat_head(out@, j);
                assert(pow256((32 - j) as nat) == 256 * p);
                let lo = old_x % 256;
                let hi = x as nat;
                let sfx = be_nat(old_out.skip(j + 1));
                assert(v == old_x * p + sfx);
                assert(old_x == hi * 256 + lo);
                assert(old_x * p == hi * (256 * p) + lo * p) by (nonlinear_arith)
                    requires
                        old_x == hi * 256 + lo,
                ;
                assert(out@[j] == lo);
                assert(be_nat(out@.skip(j)) == lo * p + sfx);
                assert(v == hi * pow256((32 - j) as nat) + be_nat(out@.skip(j)));
                assert(hi < pow256((j - 16) as nat)) by (nonlinear_arith)
                    requires
                        old_x < pow256(((j + 1) - 16) as nat),
                        pow256(((j + 1) - 16) as nat) == 256 * pow256((j - 16) as nat),
                        hi == old_x / 256,
                ;
            }
        }
        proof {
            assert(x == 0);
            lemma_be_nat_split(out@, 16);
            lemma_be_nat_zero(out@.take(16));
            assert(v == be_nat(out@.skip(16)));
            assert(be_nat(out@) == be_nat(out@.take(16)) * pow256(16) + be_nat(out@.skip(16)));
        }
        U256 { octets: out }
    }

    pub fn from_usize(v: usize) -> (r: U256)
        ensures
            r.as_nat() == v,
    {
        U256::from_u64(v as u64)
    }

    /// The 32 bytes, big-endian.
    pub fn to_be_bytes(&self) -> (r: Vec<u8>)
        ensures
            r@ == self@,
    {
        let mut out: Vec<u8> = Vec::new();
        let mut j: usize = 0;
        while j < 32
            invariant
                j <= 32,
                out@ =~= self@.take(j as int),
            decreases 32 - j,
        {
            out.push(self.octets[j]);
            j += 1;
        }
        proof {
            assert(out@ =~= self@);
        }
        out
    }

    /// A word from exactly 32 big-endian bytes.
    pub fn from_be_bytes(src: &[u8]) -> (r: U256)
        requires
            src@.len() == 32,
        ensures
            r@ == src@,
    {
        let mut out = [0u8; 32];
        let mut j: usize = 0;
        while j < 32
            invariant
                j <= 32,
                src@.len() == 32,
                forall|k: int| 0 <= k < j ==> out@[k] == src@[k],
            decreases 32 - j,
        {
            let b = *vstd::slice::slice_index_get(src, j);
            out[j] = b;
            j += 1;
        }
        proof {
            assert(out@ =~= src@);
        }
        U256 { octets: out }
    }
}

impl Address {
    pub fn eq_address(&self, other: &Address) -> (r: bool)
        ensures
            r == (self@ == other@),
    {
        let mut j: usize = 0;
        while j < 20
            invariant
                j <= 20,
                forall|k: int| 0 <= k < j ==> self@[k] == other@[k],
            decreases 20 - j,
        {
            if self.octets[j] != other.octets[j] {
                return false;
            }
            j += 1;
        }
        proof {
            assert(self@ =~= other@);
        }
        true
    }

    /// The address whose numeric value is `v`.
    pub fn from_low_u64(v: u64) -> (r: Address)
        ensures
            be_nat(r@) == v,
    {
        let w = U256::from_u64(v);
        let a = word_to_address(&w);
        proof {
            lemma_be_nat_split(w@, 12);
            lemma_be_nat_bound(w@.skip(12));
            lemma_pow256_64();
            lemma_pow256_mono(8, 20);
            let t = be_nat(w@.take(12));
            if t > 0 {
                lemma_pow256_positive(20);
                assert(t * pow256(20) >= pow256(20)) by (nonlinear_arith)
                    requires
                        t >= 1,
                        pow256(20) >= 1,
                ;
            }
            assert(t == 0);
            assert(t * pow256(20) == 0) by (nonlinear_arith)
                requires
                    t == 0,
            ;
            assert(be_nat(w@.skip(12)) == v);
        }
        a
    }
}

/// The low 160 bits of a word, as an address.
pub fn word_to_address(w: &U256) -> (r: Address)
    ensures
        r@ == w@.skip(12),
{
    let mut out = [0u8; 20];
    let mut j: usize = 0;
    while j < 20
        invariant
            j <= 20,
            forall|k: int| 0 <= k < j ==> out@[k] == w@[k + 12],
        decreases 20 - j,
    {
        out[j] = w.octets[j + 12];
        j += 1;
    }
    proof {
        assert(out@ =~= w@.skip(12));
    }
    Address { octets: out }
}

impl crate::kv::MapKey for U256 {
    fn key_eq(&self, other: &Self) -> (r: bool)
        ensures
            r == (self@ == other@),
    {
        self.eq_word(other)
    }
}

impl crate::kv::MapKey for Address {
    fn key_eq(&self, other: &Self) -> (r: bool)
        ensures
            r == (self@ == other@),
    {
        self.eq_address(other)
    }
}

/// An address zero-extended to a word.
pub fn address_to_word(a: &Address) -> (r: U256)
    ensures
        r@.skip(12) == a@,
        forall|k: int| 0 <= k < 12 ==> r@[k] == 0,
{
    let mut out = [0u8; 32];
    let mut j: usize = 0;
    while j < 20
        invariant
            j <= 20,
            forall|k: int| 0 <= k < j ==> out@[k + 12] == a@[k],
            forall|k: int| 0 <= k < 12 ==> out@[k] == 0,
        decreases 20 - j,
    {
        out[j + 12] = a.octets[j];
        j += 1;
    }
    proof {
        assert(out@.skip(12) =~= a@);
    }
    U256 { octets: out }
}

} // verus!

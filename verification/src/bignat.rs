//! Unsigned integers of any size, as token amounts are on chain: 64-bit limbs, the
//! least significant first. Every operation is exact; none can overflow.
use vstd::prelude::*;

verus! {

/// 2^64: the weight of a limb relative to the one below it.
pub open spec fn limb_base() -> nat {
    0x1_0000_0000_0000_0000nat
}

/// `limb_base()` to the power `n`.
pub open spec fn pow_base(n: nat) -> nat
    decreases n,
{
    if n == 0 {
        1
    } else {
        limb_base() * pow_base((n - 1) as nat)
    }
}

/// Limb `i` of `s`; limbs past the end are zero.
pub open spec fn limb_at(s: Seq<u64>, i: int) -> nat {
    if 0 <= i < s.len() {
        s[i] as nat
    } else {
        0
    }
}

/// The number that the `n` lowest limbs of `s` stand for.
pub open spec fn limbs_value(s: Seq<u64>, n: nat) -> nat
    decreases n,
{
    if n == 0 {
        0
    } else {
        limbs_value(s, (n - 1) as nat) + limb_at(s, n - 1) * pow_base((n - 1) as nat)
    }
}

proof fn lemma_pow_base_step(n: nat)
    ensures
        pow_base(n + 1) == limb_base() * pow_base(n),
        pow_base(n) >= 1,
    decreases n,
{
    if n > 0 {
        lemma_pow_base_step((n - 1) as nat);
    }
    let p = pow_base(n);
    assert(limb_base() * p >= 1) by (nonlinear_arith)
        requires
            p >= 1,
            limb_base() == 0x1_0000_0000_0000_0000nat,
    ;
}

/// Only the limbs below `n` matter for the value of the `n` lowest limbs.
proof fn lemma_same_prefix(a: Seq<u64>, b: Seq<u64>, n: nat)
    requires
        forall|i: int| 0 <= i < n ==> limb_at(a, i) == limb_at(b, i),
    ensures
        limbs_value(a, n) == limbs_value(b, n),
    decreases n,
{
    if n > 0 {
        lemma_same_prefix(a, b, (n - 1) as nat);
    }
}

/// Limbs past the end add nothing.
proof fn lemma_extra_zeros(s: Seq<u64>, n: nat)
    requires
        n >= s.len(),
    ensures
        limbs_value(s, n) == limbs_value(s, s.len()),
    decreases n,
{
    if n > s.len() {
        lemma_extra_zeros(s, (n - 1) as nat);
        assert(limb_at(s, n - 1) == 0);
        assert(limbs_value(s, n) == limbs_value(s, (n - 1) as nat) + 0 * pow_base((n - 1) as nat));
    }
}

/// `n` limbs stand for less than `pow_base(n)`.
proof fn lemma_value_bound(s: Seq<u64>, n: nat)
    ensures
        limbs_value(s, n) < pow_base(n),
    decreases n,
{
    if n > 0 {
        let m = (n - 1) as nat;
        lemma_value_bound(s, m);
        lemma_pow_base_step(m);
        let v = limbs_value(s, m);
        let l = limb_at(s, m as int);
        let p = pow_base(m);
        assert(v + l * p < limb_base() * p) by (nonlinear_arith)
            requires
                v < p,
                l < limb_base(),
                limb_base() == 0x1_0000_0000_0000_0000nat,
        ;
    }
}

/// Appending a limb adds it at the next weight.
proof fn lemma_push_value(s: Seq<u64>, x: u64)
    ensures
        limbs_value(s.push(x), s.len() + 1) == limbs_value(s, s.len()) + x * pow_base(s.len()),
{
    let t = s.push(x);
    assert forall|i: int| 0 <= i < s.len() implies limb_at(t, i) == limb_at(s, i) by {}
    lemma_same_prefix(t, s, s.len());
    assert(limb_at(t, s.len() as int) == x);
}

/// One column of an addition: the limb written and the carry out stand for the two
/// limbs and the carry in.
proof fn lemma_add_column(vr: int, va: int, vb: int, p: int, c: int, lo: int, hi: int, x: int, y: int)
    requires
        vr + c * p == va + vb,
        lo + hi * 0x1_0000_0000_0000_0000 == x + y + c,
    ensures
        (vr + lo * p) + hi * (0x1_0000_0000_0000_0000 * p) == (va + x * p) + (vb + y * p),
{
    assert((lo + hi * 0x1_0000_0000_0000_0000) * p == (x + y + c) * p);
    assert((lo + hi * 0x1_0000_0000_0000_0000) * p == lo * p + hi * (0x1_0000_0000_0000_0000 * p)) by (nonlinear_arith);
    assert((x + y + c) * p == x * p + y * p + c * p) by (nonlinear_arith);
}

/// One column of a subtraction: the limb written, the subtracted limb and the borrow
/// in stand for the limb of the minuend and the borrow out.
proof fn lemma_sub_column(vr: int, va: int, vb: int, p: int, c: int, d: int, c2: int, x: int, y: int)
    requires
        vr + vb == va + c * p,
        d + y + c == x + c2 * 0x1_0000_0000_0000_0000,
    ensures
        (vr + d * p) + (vb + y * p) == (va + x * p) + c2 * (0x1_0000_0000_0000_0000 * p),
{
    assert((d + y + c) * p == (x + c2 * 0x1_0000_0000_0000_0000) * p);
    assert((d + y + c) * p == d * p + y * p + c * p) by (nonlinear_arith);
    assert((x + c2 * 0x1_0000_0000_0000_0000) * p == x * p + c2 * (0x1_0000_0000_0000_0000 * p)) by (nonlinear_arith);
}

/// Zero limbs between `m` and `n` add nothing.
proof fn lemma_zero_tail(s: Seq<u64>, m: nat, n: nat)
    requires
        m <= n,
        forall|k: int| m <= k < n ==> limb_at(s, k) == 0,
    ensures
        limbs_value(s, n) == limbs_value(s, m),
    decreases n - m,
{
    if n > m {
        lemma_zero_tail(s, m, (n - 1) as nat);
        let p = pow_base((n - 1) as nat);
        let l = limb_at(s, n - 1);
        assert(l * p == 0) by (nonlinear_arith)
            requires
                l == 0,
        ;
    }
}

/// A single limb never weighs more than the whole.
proof fn lemma_limb_le_value(s: Seq<u64>, k: nat, n: nat)
    requires
        k < n,
    ensures
        limb_at(s, k as int) * pow_base(k) <= limbs_value(s, n),
    decreases n,
{
    if n - 1 > k {
        lemma_limb_le_value(s, k, (n - 1) as nat);
    }
}

/// From the third limb on, a limb weighs at least 2^128.
proof fn lemma_pow_at_least(k: nat)
    requires
        k >= 2,
    ensures
        pow_base(k) >= 0x1_0000_0000_0000_0000_0000_0000_0000_0000,
    decreases k,
{
    lemma_pow_base_step((k - 1) as nat);
    let p = pow_base((k - 1) as nat);
    if k == 2 {
        lemma_pow_base_step(0);
        assert(p == 0x1_0000_0000_0000_0000nat);
        assert(limb_base() * p == 0x1_0000_0000_0000_0000_0000_0000_0000_0000) by (nonlinear_arith)
            requires
                p == 0x1_0000_0000_0000_0000nat,
                limb_base() == 0x1_0000_0000_0000_0000nat,
        ;
    } else {
        lemma_pow_at_least((k - 1) as nat);
        assert(limb_base() * p >= p) by (nonlinear_arith)
            requires
                p >= 0,
                limb_base() == 0x1_0000_0000_0000_0000nat,
        ;
    }
}

/// An unsigned integer of any size.
#[derive(Clone, Debug, PartialEq, Eq)]
pub struct BigNat {
    limbs: Vec<u64>,
}

impl View for BigNat {
    type V = nat;

    closed spec fn view(&self) -> nat {
        limbs_value(self.limbs@, self.limbs@.len())
    }
}

/// Drops high zero limbs; the value stays.
fn trimmed(limbs: Vec<u64>) -> (r: BigNat)
    ensures
        r@ == limbs_value(limbs@, limbs@.len()),
{
    let ghost v = limbs_value(limbs@, limbs@.len());
    let mut limbs = limbs;
    loop
        invariant
            limbs_value(limbs@, limbs@.len()) == v,
        ensures
            limbs_value(limbs@, limbs@.len()) == v,
        decreases limbs@.len(),
    {
        let n = limbs.len();
        if n == 0 {
            break;
        }
        if limbs[n - 1] != 0 {
            break;
        }
        let ghost before = limbs@;
        limbs.pop();
        proof {
            assert(before =~= limbs@.push(0u64));
            lemma_push_value(limbs@, 0u64);
            let p = pow_base(limbs@.len());
            assert(0u64 * p == 0) by (nonlinear_arith);
            assert(before.len() == limbs@.len() + 1);
        }
    }
    BigNat { limbs }
}

impl BigNat {
    /// Zero.
    pub fn zero() -> (r: BigNat)
        ensures
            r@ == 0,
    {
        BigNat { limbs: Vec::new() }
    }

    /// The number `x`.
    pub fn from_u64(x: u64) -> (r: BigNat)
        ensures
            r@ == x,
    {
        let mut limbs: Vec<u64> = Vec::new();
        limbs.push(x);
        proof {
            assert(limbs@ =~= Seq::<u64>::empty().push(x));
            lemma_push_value(Seq::<u64>::empty(), x);
            assert(pow_base(0) == 1);
            let p = pow_base(0);
            assert(x * p == x) by (nonlinear_arith)
                requires
                    p == 1,
            ;
        }
        trimmed(limbs)
    }

    /// The number `x`.
    pub fn from_u128(x: u128) -> (r: BigNat)
        ensures
            r@ == x,
    {
        let hi: u128 = x / 0x1_0000_0000_0000_0000u128;
        let lo: u128 = x % 0x1_0000_0000_0000_0000u128;
        assert(lo < 0x1_0000_0000_0000_0000 && hi < 0x1_0000_0000_0000_0000 && x == hi * 0x1_0000_0000_0000_0000 + lo)
            by (nonlinear_arith)
            requires
                hi == x / 0x1_0000_0000_0000_0000u128,
                lo == x % 0x1_0000_0000_0000_0000u128,
                x < 0x1_0000_0000_0000_0000_0000_0000_0000_0000,
        ;
        let mut limbs: Vec<u64> = Vec::new();
        limbs.push(lo as u64);
        limbs.push(hi as u64);
        proof {
            let s0 = Seq::<u64>::empty();
            let s1 = s0.push(lo as u64);
            assert(limbs@ =~= s1.push(hi as u64));
            lemma_push_value(s0, lo as u64);
            lemma_push_value(s1, hi as u64);
            lemma_pow_base_step(0);
            assert(pow_base(0) == 1);
            assert(pow_base(1) == 0x1_0000_0000_0000_0000nat);
            assert(limbs_value(s0, 0) == 0);
            let p0 = pow_base(0);
            let p1 = pow_base(1);
            assert(lo * p0 == lo && hi * p1 == hi * 0x1_0000_0000_0000_0000) by (nonlinear_arith)
                requires
                    p0 == 1,
                    p1 == 0x1_0000_0000_0000_0000nat,
            ;
        }
        trimmed(limbs)
    }

    /// The number the limbs `limbs` stand for, the least significant first.
    pub fn from_limbs(limbs: Vec<u64>) -> (r: BigNat)
        ensures
            r@ == limbs_value(limbs@, limbs@.len()),
    {
        trimmed(limbs)
    }

    /// The limbs, the least significant first, without high zero limbs.
    pub fn limbs(&self) -> (r: &Vec<u64>)
        ensures
            limbs_value(r@, r@.len()) == self@,
    {
        &self.limbs
    }

    /// A copy of the same number.
    pub fn dup(&self) -> (r: BigNat)
        ensures
            r@ == self@,
    {
        let mut limbs: Vec<u64> = Vec::new();
        let mut i: usize = 0;
        while i < self.limbs.len()
            invariant
                i <= self.limbs@.len(),
                limbs@ =~= self.limbs@.subrange(0, i as int),
            decreases self.limbs@.len() - i,
        {
            limbs.push(self.limbs[i]);
            i = i + 1;
        }
        assert(limbs@ =~= self.limbs@);
        BigNat { limbs }
    }

    /// The number as a `u128`, or `None` when it is larger than `u128::MAX`.
    pub fn to_u128(&self) -> (r: Option<u128>)
        ensures
            match r {
                Some(x) => x == self@,
                None => self@ > u128::MAX,
            },
    {
        let n = self.limbs.len();
        let ghost s = self.limbs@;
        let mut k: usize = 2;
        while k < n
            invariant
                n == s.len(),
                s == self.limbs@,
                2 <= k,
                forall|j: int| 2 <= j < k ==> limb_at(s, j) == 0,
            decreases n - k,
        {
            if self.limbs[k] != 0 {
                proof {
                    lemma_limb_le_value(s, k as nat, n as nat);
                    lemma_pow_at_least(k as nat);
                    let l = limb_at(s, k as int);
                    let p = pow_base(k as nat);
                    assert(l * p >= p) by (nonlinear_arith)
                        requires
                            l >= 1,
                            p >= 0,
                    ;
                }
                return None;
            }
            k = k + 1;
        }
        let lo: u64 = if n > 0 {
            self.limbs[0]
        } else {
            0
        };
        let hi: u64 = if n > 1 {
            self.limbs[1]
        } else {
            0
        };
        proof {
            if n >= 2 {
                lemma_zero_tail(s, 2, n as nat);
            } else {
                lemma_extra_zeros(s, 2);
            }
            lemma_pow_base_step(0);
            lemma_pow_base_step(1);
            assert(limb_at(s, 0) == lo);
            assert(limb_at(s, 1) == hi);
            let p0 = pow_base(0);
            let p1 = pow_base(1);
            assert(lo * p0 == lo && hi * p1 == hi * 0x1_0000_0000_0000_0000) by (nonlinear_arith)
                requires
                    p0 == 1,
                    p1 == 0x1_0000_0000_0000_0000nat,
            ;
            assert(limbs_value(s, 0) == 0);
            assert(limbs_value(s, 1) == limbs_value(s, 0) + limb_at(s, 0) * p0);
            assert(limbs_value(s, 2) == limbs_value(s, 1) + limb_at(s, 1) * p1);
            assert(limbs_value(s, 2) == lo + hi * 0x1_0000_0000_0000_0000);
        }
        assert(hi * 0x1_0000_0000_0000_0000 + lo <= u128::MAX) by (nonlinear_arith)
            requires
                hi < 0x1_0000_0000_0000_0000,
                lo < 0x1_0000_0000_0000_0000,
        ;
        Some(hi as u128 * 0x1_0000_0000_0000_0000u128 + lo as u128)
    }

    /// `self + other`.
    pub fn add(&self, other: &BigNat) -> (r: BigNat)
        ensures
            r@ == self@ + other@,
    {
        let a = &self.limbs;
        let b = &other.limbs;
        let n: usize = if a.len() >= b.len() {
            a.len()
        } else {
            b.len()
        };
        let mut res: Vec<u64> = Vec::new();
        let mut carry: u64 = 0;
        let mut i: usize = 0;
        while i < n
            invariant
                n >= a@.len(),
                n >= b@.len(),
                i <= n,
                res@.len() == i,
                carry <= 1,
                limbs_value(res@, i as nat) + carry * pow_base(i as nat) == limbs_value(a@, i as nat) + limbs_value(
                    b@,
                    i as nat,
                ),
            decreases n - i,
        {
            let x: u64 = if i < a.len() {
                a[i]
            } else {
                0
            };
            let y: u64 = if i < b.len() {
                b[i]
            } else {
                0
            };
            assert(x == limb_at(a@, i as int));
            assert(y == limb_at(b@, i as int));
            let s: u128 = x as u128 + y as u128 + carry as u128;
            let lo: u64;
            let hi: u64;
            if s >= 0x1_0000_0000_0000_0000u128 {
                lo = (s - 0x1_0000_0000_0000_0000u128) as u64;
                hi = 1;
            } else {
                lo = s as u64;
                hi = 0;
            }
            let ghost before = res@;
            res.push(lo);
            proof {
                lemma_push_value(before, lo);
                lemma_pow_base_step(i as nat);
                lemma_add_column(
                    limbs_value(before, i as nat) as int,
                    limbs_value(a@, i as nat) as int,
                    limbs_value(b@, i as nat) as int,
                    pow_base(i as nat) as int,
                    carry as int,
                    lo as int,
                    hi as int,
                    x as int,
                    y as int,
                );
            }
            carry = hi;
            i = i + 1;
        }
        let ghost before = res@;
        res.push(carry);
        proof {
            lemma_push_value(before, carry);
            lemma_extra_zeros(a@, n as nat);
            lemma_extra_zeros(b@, n as nat);
        }
        trimmed(res)
    }

    /// `self - other` when `other` is not larger, else `None`.
    pub fn checked_sub(&self, other: &BigNat) -> (r: Option<BigNat>)
        ensures
            match r {
                Some(d) => other@ <= self@ && d@ == self@ - other@,
                None => self@ < other@,
            },
    {
        let a = &self.limbs;
        let b = &other.limbs;
        let n: usize = if a.len() >= b.len() {
            a.len()
        } else {
            b.len()
        };
        let mut res: Vec<u64> = Vec::new();
        let mut borrow: u64 = 0;
        let mut i: usize = 0;
        while i < n
            invariant
                n >= a@.len(),
                n >= b@.len(),
                i <= n,
                res@.len() == i,
                borrow <= 1,
                limbs_value(res@, i as nat) + limbs_value(b@, i as nat) == limbs_value(a@, i as nat) + borrow
                    * pow_base(i as nat),
            decreases n - i,
        {
            let x: u64 = if i < a.len() {
                a[i]
            } else {
                0
            };
            let y: u64 = if i < b.len() {
                b[i]
            } else {
                0
            };
            assert(x == limb_at(a@, i as int));
            assert(y == limb_at(b@, i as int));
            let need: u128 = y as u128 + borrow as u128;
            let d: u64;
            let b2: u64;
            if x as u128 >= need {
                d = (x as u128 - need) as u64;
                b2 = 0;
            } else {
                d = (x as u128 + 0x1_0000_0000_0000_0000u128 - need) as u64;
                b2 = 1;
            }
            let ghost before = res@;
            res.push(d);
            proof {
                lemma_push_value(before, d);
                lemma_pow_base_step(i as nat);
                lemma_sub_column(
                    limbs_value(before, i as nat) as int,
                    limbs_value(a@, i as nat) as int,
                    limbs_value(b@, i as nat) as int,
                    pow_base(i as nat) as int,
                    borrow as int,
                    d as int,
                    b2 as int,
                    x as int,
                    y as int,
                );
            }
            borrow = b2;
            i = i + 1;
        }
        proof {
            lemma_extra_zeros(a@, n as nat);
            lemma_extra_zeros(b@, n as nat);
            lemma_value_bound(res@, n as nat);
        }
        if borrow != 0 {
            None
        } else {
            Some(trimmed(res))
        }
    }

    /// `self <= other`.
    pub fn le(&self, other: &BigNat) -> (b: bool)
        ensures
            b == (self@ <= other@),
    {
        other.checked_sub(self).is_some()
    }

    /// `self < other`.
    pub fn lt(&self, other: &BigNat) -> (b: bool)
        ensures
            b == (self@ < other@),
    {
        !other.le(self)
    }

    /// `self == other` as numbers.
    pub fn same(&self, other: &BigNat) -> (b: bool)
        ensures
            b == (self@ == other@),
    {
        self.le(other) && other.le(self)
    }

    /// `self == 0`.
    pub fn is_zero(&self) -> (b: bool)
        ensures
            b == (self@ == 0),
    {
        self.le(&BigNat::zero())
    }

    /// `self * m`.
    pub fn mul_u64(&self, m: u64) -> (r: BigNat)
        ensures
            r@ == self@ * m,
    {
        let mut total = BigNat::zero();
        let mut k: u64 = 0;
        while k < m
            invariant
                k <= m,
                total@ == self@ * k,
            decreases m - k,
        {
            total = total.add(self);
            assert(self@ * k + self@ == self@ * (k + 1)) by (nonlinear_arith);
            k = k + 1;
        }
        total
    }
}

} // verus!

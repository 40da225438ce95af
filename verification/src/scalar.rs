//! Exact scalar arithmetic: the fixed-point resolution, floor division and
//! ratios of integers.

use vstd::prelude::*;

verus! {

/// Fixed-point units in one unit of length.
pub const UNITS_PER_ONE: i32 = 1000;

/// The greater of two coordinates.
pub open spec fn greater_spec(a: i32, b: i32) -> i32 {
    if a < b {
        b
    } else {
        a
    }
}

/// The lesser of two coordinates.
pub open spec fn lesser_spec(a: i32, b: i32) -> i32 {
    if b < a {
        b
    } else {
        a
    }
}

/// The greater of two coordinates.
#[verifier::when_used_as_spec(greater_spec)]
pub fn greater(a: i32, b: i32) -> (m: i32)
    ensures
        m == greater_spec(a, b),
{
    if a < b {
        b
    } else {
        a
    }
}

/// The lesser of two coordinates.
#[verifier::when_used_as_spec(lesser_spec)]
pub fn lesser(a: i32, b: i32) -> (m: i32)
    ensures
        m == lesser_spec(a, b),
{
    if b < a {
        b
    } else {
        a
    }
}

/// The floor of `v / 2`.
pub fn half_floor(v: i64) -> (h: i64)
    ensures
        h == v / 2,
{
    if v >= 0 {
        v / 2
    } else {
        let m: i64 = -(v + 1);
        -(m / 2) - 1
    }
}

/// Floor division is determined by its defining bounds.
pub proof fn lemma_floor_unique(n: int, d: int, q: int)
    by (nonlinear_arith)
    requires
        d > 0,
        q * d <= n < q * d + d,
    ensures
        n / d == q,
{
}

/// A multiple of the divisor divides without remainder.
pub proof fn lemma_exact_quotient(k: int, d: int)
    requires
        d > 0,
    ensures
        (k * d) / d == k,
        (d * k) / d == k,
{
    assert(d * k == k * d) by (nonlinear_arith);
    assert(k * d + d > k * d);
    lemma_floor_unique(k * d, d, k);
}

/// A quotient between two multiples of the divisor has its floor between
/// the two factors.
pub proof fn lemma_floor_between(n: int, d: int, lo: int, hi: int)
    by (nonlinear_arith)
    requires
        d > 0,
        d * lo <= n <= d * hi,
    ensures
        lo <= n / d <= hi,
{
}

/// The floor of `n / d` for a positive divisor.
pub fn floor_div(n: i128, d: i128) -> (q: i128)
    requires
        d > 0,
    ensures
        q == n / d,
{
    if n >= 0 {
        n / d
    } else {
        let m: i128 = -(n + 1);
        let k: i128 = m / d;
        proof {
            assert(k * d <= m < k * d + d) by (nonlinear_arith)
                requires
                    k == m / d,
                    d > 0,
                    m >= 0,
            ;
            assert((-k - 1) * d == -(k * d) - d) by (nonlinear_arith);
            lemma_floor_unique(n as int, d as int, -k - 1);
        }
        -k - 1
    }
}

/// An exact ratio `num / den` of two integers with a positive denominator.
///
/// Two ratios may denote the same number without being equal as structures
/// (`1/2` and `2/4`): `==` compares the structures, [`Ratio::is_same`] the
/// numbers.
#[derive(Debug, Clone, Copy, PartialEq, Eq, Structural)]
pub struct Ratio {
    pub num: i64,
    pub den: u64,
}

impl Ratio {
    /// The denominator is positive.
    pub open spec fn wf(self) -> bool {
        self.den > 0
    }

    /// `self < other` as numbers.
    pub open spec fn lt(self, other: Ratio) -> bool {
        self.num * other.den < other.num * self.den
    }

    /// `self <= other` as numbers.
    pub open spec fn le(self, other: Ratio) -> bool {
        self.num * other.den <= other.num * self.den
    }

    /// `self` and `other` denote the same number.
    pub open spec fn same(self, other: Ratio) -> bool {
        self.num * other.den == other.num * self.den
    }

    /// The number lies in the closed interval from zero to one.
    pub open spec fn in_unit(self) -> bool {
        0 <= self.num <= self.den
    }

    /// The least representable ratio.
    pub open spec fn lowest_spec() -> Ratio {
        Ratio { num: i64::MIN, den: 1 }
    }

    /// The greatest representable ratio.
    pub open spec fn highest_spec() -> Ratio {
        Ratio { num: i64::MAX, den: 1 }
    }

    /// Zero, as `0/1`.
    pub open spec fn zero_spec() -> Ratio {
        Ratio { num: 0, den: 1 }
    }

    /// One, as `1/1`.
    pub open spec fn one_spec() -> Ratio {
        Ratio { num: 1, den: 1 }
    }

    /// The ratio `num / den` with the sign carried by the numerator.
    pub open spec fn quotient(num: int, den: int) -> Ratio {
        if den < 0 {
            Ratio { num: (-num) as i64, den: (-den) as u64 }
        } else {
            Ratio { num: num as i64, den: den as u64 }
        }
    }

    /// The number clamped to the closed interval from zero to one.
    pub open spec fn clamp_unit_spec(self) -> Ratio {
        if self.lt(Self::zero_spec()) {
            Self::zero_spec()
        } else if Self::one_spec().lt(self) {
            Self::one_spec()
        } else {
            self
        }
    }

    /// The least representable ratio.
    #[verifier::when_used_as_spec(lowest_spec)]
    pub fn lowest() -> (r: Ratio)
        ensures
            r == Self::lowest_spec(),
    {
        Ratio { num: i64::MIN, den: 1 }
    }

    /// The greatest representable ratio.
    #[verifier::when_used_as_spec(highest_spec)]
    pub fn highest() -> (r: Ratio)
        ensures
            r == Self::highest_spec(),
    {
        Ratio { num: i64::MAX, den: 1 }
    }

    /// Zero, as `0/1`.
    #[verifier::when_used_as_spec(zero_spec)]
    pub fn zero() -> (r: Ratio)
        ensures
            r == Self::zero_spec(),
    {
        Ratio { num: 0, den: 1 }
    }

    /// One, as `1/1`.
    #[verifier::when_used_as_spec(one_spec)]
    pub fn one() -> (r: Ratio)
        ensures
            r == Self::one_spec(),
    {
        Ratio { num: 1, den: 1 }
    }

    /// Builds `num / den`, moving the sign of the denominator to the numerator.
    pub fn from_quotient(num: i64, den: i64) -> (r: Ratio)
        requires
            den != 0,
            num > i64::MIN,
        ensures
            r == Self::quotient(num as int, den as int),
            r.wf(),
    {
        if den < 0 {
            Ratio { num: -num, den: (-(den as i128)) as u64 }
        } else {
            Ratio { num, den: den as u64 }
        }
    }

    /// Whether `self < other` as numbers.
    pub fn is_below(&self, other: &Ratio) -> (b: bool)
        ensures
            b == self.lt(*other),
    {
        proof {
            lemma_cross_product_fits(self.num, other.den);
            lemma_cross_product_fits(other.num, self.den);
        }
        (self.num as i128) * (other.den as i128) < (other.num as i128) * (self.den as i128)
    }

    /// Whether `self` and `other` denote the same number.
    pub fn is_same(&self, other: &Ratio) -> (b: bool)
        ensures
            b == self.same(*other),
    {
        proof {
            lemma_cross_product_fits(self.num, other.den);
            lemma_cross_product_fits(other.num, self.den);
        }
        (self.num as i128) * (other.den as i128) == (other.num as i128) * (self.den as i128)
    }

    /// Clamps the number to the closed interval from zero to one.
    pub fn clamp_unit(&self) -> (r: Ratio)
        requires
            self.wf(),
        ensures
            r == self.clamp_unit_spec(),
            r.wf(),
            r.in_unit(),
    {
        let zero = Ratio::zero();
        let one = Ratio::one();
        if self.is_below(&zero) {
            zero
        } else if one.is_below(self) {
            one
        } else {
            *self
        }
    }

    /// The floor of `delta * self`, for a ratio between zero and one.
    pub fn scale_floor(&self, delta: i64) -> (r: i64)
        requires
            self.wf(),
            self.in_unit(),
        ensures
            r == (delta * self.num) / (self.den as int),
            delta >= 0 ==> 0 <= r <= delta,
            delta <= 0 ==> delta <= r <= 0,
    {
        proof {
            lemma_scaled_within(delta as int, self.num as int, self.den as int);
            assert(i128::MIN <= delta * self.num <= i128::MAX) by (nonlinear_arith)
                requires
                    i64::MIN <= delta <= i64::MAX,
                    0 <= self.num <= i64::MAX,
            ;
        }
        let q: i128 = floor_div((delta as i128) * (self.num as i128), self.den as i128);
        q as i64
    }
}

/// The product of a 64-bit signed and a 64-bit unsigned value fits in 128 bits.
pub proof fn lemma_cross_product_fits(n: i64, d: u64)
    by (nonlinear_arith)
    ensures
        i128::MIN <= n * d <= i128::MAX,
{
}

/// Scaling by a ratio between zero and one keeps the floor between zero and
/// the scaled amount.
pub proof fn lemma_scaled_within(delta: int, num: int, den: int)
    by (nonlinear_arith)
    requires
        0 <= num <= den,
        den > 0,
    ensures
        delta >= 0 ==> 0 <= (delta * num) / den <= delta,
        delta <= 0 ==> delta <= (delta * num) / den <= 0,
        delta >= 0 ==> 0 <= delta * num <= delta * den,
        delta <= 0 ==> delta * den <= delta * num <= 0,
{
}

/// Cross-multiplied order is transitive: `a/b <= c/d < e/f` gives `a/b < e/f`.
pub proof fn lemma_cross_le_lt(an: int, ad: int, bn: int, bd: int, cn: int, cd: int)
    by (nonlinear_arith)
    requires
        ad > 0,
        bd > 0,
        cd > 0,
        an * bd <= bn * ad,
        bn * cd < cn * bd,
    ensures
        an * cd < cn * ad,
{
    assert(an * bd * cd <= bn * ad * cd);
    assert(bn * cd * ad < cn * bd * ad);
    assert(bn * ad * cd == bn * cd * ad);
    assert((an * cd) * bd < (cn * ad) * bd);
}

/// Cross-multiplied order is transitive: `a/b < c/d <= e/f` gives `a/b < e/f`.
pub proof fn lemma_cross_lt_le(an: int, ad: int, bn: int, bd: int, cn: int, cd: int)
    by (nonlinear_arith)
    requires
        ad > 0,
        bd > 0,
        cd > 0,
        an * bd < bn * ad,
        bn * cd <= cn * bd,
    ensures
        an * cd < cn * ad,
{
    assert(an * bd * cd < bn * ad * cd);
    assert(bn * cd * ad <= cn * bd * ad);
    assert(bn * ad * cd == bn * cd * ad);
    assert((an * cd) * bd < (cn * ad) * bd);
}

/// Cross-multiplied order is transitive: `a/b <= c/d <= e/f` gives `a/b <= e/f`.
pub proof fn lemma_cross_le_le(an: int, ad: int, bn: int, bd: int, cn: int, cd: int)
    by (nonlinear_arith)
    requires
        ad > 0,
        bd > 0,
        cd > 0,
        an * bd <= bn * ad,
        bn * cd <= cn * bd,
    ensures
        an * cd <= cn * ad,
{
    assert(an * bd * cd <= bn * ad * cd);
    assert(bn * cd * ad <= cn * bd * ad);
    assert(bn * ad * cd == bn * cd * ad);
    assert((an * cd) * bd <= (cn * ad) * bd);
}

impl Ratio {
    /// The least ratio lies below every ratio with a numerator above the least.
    pub proof fn lemma_lowest_below(r: Ratio)
        requires
            r.wf(),
            r.num > i64::MIN,
        ensures
            Ratio::lowest_spec().lt(r),
            !r.same(Ratio::lowest_spec()),
    {
        assert(i64::MIN * r.den <= i64::MIN) by (nonlinear_arith)
            requires
                r.den >= 1,
        ;
    }

    /// The greatest ratio lies above every ratio with a numerator below the greatest.
    pub proof fn lemma_highest_above(r: Ratio)
        requires
            r.wf(),
            r.num < i64::MAX,
        ensures
            r.lt(Ratio::highest_spec()),
            !r.same(Ratio::highest_spec()),
    {
        assert(i64::MAX * r.den >= i64::MAX) by (nonlinear_arith)
            requires
                r.den >= 1,
        ;
    }

    /// `a <= b` and `b < c` give `a < c`.
    pub proof fn lemma_le_lt(a: Ratio, b: Ratio, c: Ratio)
        requires
            a.wf(),
            b.wf(),
            c.wf(),
            a.le(b),
            b.lt(c),
        ensures
            a.lt(c),
    {
        lemma_cross_le_lt(
            a.num as int,
            a.den as int,
            b.num as int,
            b.den as int,
            c.num as int,
            c.den as int,
        );
    }

    /// `a < b` and `b <= c` give `a < c`.
    pub proof fn lemma_lt_le(a: Ratio, b: Ratio, c: Ratio)
        requires
            a.wf(),
            b.wf(),
            c.wf(),
            a.lt(b),
            b.le(c),
        ensures
            a.lt(c),
    {
        lemma_cross_lt_le(
            a.num as int,
            a.den as int,
            b.num as int,
            b.den as int,
            c.num as int,
            c.den as int,
        );
    }

    /// `a <= b` and `b <= c` give `a <= c`.
    pub proof fn lemma_le_le(a: Ratio, b: Ratio, c: Ratio)
        requires
            a.wf(),
            b.wf(),
            c.wf(),
            a.le(b),
            b.le(c),
        ensures
            a.le(c),
    {
        lemma_cross_le_le(
            a.num as int,
            a.den as int,
            b.num as int,
            b.den as int,
            c.num as int,
            c.den as int,
        );
    }
}

} // verus!

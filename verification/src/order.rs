//! Rounding keeps the order of numbers: a sum or a quotient of a smaller
//! number is not larger.

use vstd::prelude::*;
use vstd::arithmetic::power2::pow2;
use vstd::arithmetic::power2::lemma_pow2_pos;
use crate::arith::lemma_rounded_is_nearest;
use crate::arith::nan;
use crate::arith::rounded;
use crate::arith::signed;
use crate::round::nearest_even;
use crate::round::off;
use crate::scalar::lemma_weight_increases;
use crate::scalar::weight_of;
use crate::scalar::Scalar;
use crate::scalar::INFINITY_BITS;

verus! {

/// Of two fractions with one denominator, the smaller is not rounded to the
/// larger bit pattern.
pub proof fn lemma_rounded_increases(n1: int, n2: int, den: int)
    requires
        0 <= n1 <= n2,
        den > 0,
    ensures
        rounded(n1, den) <= rounded(n2, den) <= INFINITY_BITS,
        weight_of(rounded(n1, den)) <= weight_of(rounded(n2, den)),
        weight_of(rounded(n2, den)) <= weight_of(INFINITY_BITS),
{
    let m1 = rounded(n1, den);
    let m2 = rounded(n2, den);
    lemma_rounded_is_nearest(n1, den);
    lemma_rounded_is_nearest(n2, den);
    if m1 > m2 {
        lemma_weight_increases(m2, m1);
        let a = den * weight_of(m2);
        let b = den * weight_of(m1);
        assert(a < b) by (nonlinear_arith)
            requires
                a == den * weight_of(m2),
                b == den * weight_of(m1),
                weight_of(m2) < weight_of(m1),
                den > 0,
        ;
        assert(off(m1, n1, den) <= off(m2, n1, den));
        assert(off(m2, n2, den) <= off(m1, n2, den));
        assert(2 * n1 >= a + b);
        assert(2 * n2 <= a + b);
        assert(n1 == n2);
        assert(false);
    }
    if m1 < m2 {
        lemma_weight_increases(m1, m2);
    }
    if m2 < INFINITY_BITS {
        lemma_weight_increases(m2, INFINITY_BITS);
    }
}

/// `a` is not above `b`, or one of the two is a NaN.
pub open spec fn not_above(a: Scalar, b: Scalar) -> bool {
    a.is_nan_spec() || b.is_nan_spec() || a.numerator() <= b.numerator()
}

/// A number less a number that is not negative is not above their sum.
pub proof fn lemma_sub_not_above_add(c: Scalar, r: Scalar)
    requires
        r.is_nan_spec() || r.numerator() >= 0,
    ensures
        not_above(c.sub_spec(r), c.add_spec(r)),
{
    let low = c.sub_spec(r);
    let high = c.add_spec(r);
    assert(weight_of(0) == 0);
    if !c.is_nan_spec() && !r.is_nan_spec() {
        let m = r.negated();
        assert(m.numerator() == -r.numerator());
        assert(m.is_infinite_spec() == r.is_infinite_spec());
        assert(nan().is_nan_spec());
        if c.is_finite_spec() && r.is_finite_spec() {
            let s1 = c.numerator() - r.numerator();
            let s2 = c.numerator() + r.numerator();
            if s1 > 0 {
                lemma_rounded_increases(s1, s2, 1);
            } else if s2 < 0 {
                lemma_rounded_increases(-s2, -s1, 1);
            } else {
                if s1 < 0 {
                    lemma_rounded_increases(-s1, -s1, 1);
                }
                if s2 > 0 {
                    lemma_rounded_increases(s2, s2, 1);
                }
            }
            assert(s1 != 0 ==> low.magnitude() == rounded(if s1 < 0 {
                -s1
            } else {
                s1
            }, 1));
            assert(s2 != 0 ==> high.magnitude() == rounded(if s2 < 0 {
                -s2
            } else {
                s2
            }, 1));
        } else if r.is_infinite_spec() && c.is_finite_spec() {
            assert(low == m);
            assert(high == r);
        }
    }
}

/// Divided by a number that is not negative, a number that is not above
/// another gives a quotient that is not above the other's.
pub proof fn lemma_div_keeps_order(x1: Scalar, x2: Scalar, a: Scalar)
    requires
        not_above(x1, x2),
        a.is_nan_spec() || !a.is_sign_negative_spec(),
    ensures
        not_above(x1.div_spec(a), x2.div_spec(a)),
{
    let q1 = x1.div_spec(a);
    let q2 = x2.div_spec(a);
    assert(weight_of(0) == 0);
    assert(nan().is_nan_spec());
    if !a.is_nan_spec() && !x1.is_nan_spec() && !x2.is_nan_spec() {
        x1.lemma_order_by_bits(x2);
        x1.lemma_order_by_bits(Scalar::zero());
        x2.lemma_order_by_bits(Scalar::zero());
        lemma_weight_increases(0, INFINITY_BITS);
        if !q1.is_nan_spec() && !q2.is_nan_spec() {
            if a.is_finite_spec() && a.magnitude() != 0 {
                let den = a.weight() as int;
                a.lemma_order_by_bits(Scalar::zero());
                lemma_pow2_pos(1074);
                let k = pow2(1074) as int;
                let w1 = x1.weight() as int;
                let w2 = x2.weight() as int;
                assert(w1 * k >= 0 && w2 * k >= 0) by (nonlinear_arith)
                    requires
                        w1 >= 0,
                        w2 >= 0,
                        k > 0,
                ;
                lemma_rounded_increases(w1 * k, w1 * k, den);
                lemma_rounded_increases(w2 * k, w2 * k, den);
                if w1 <= w2 {
                    assert(0 <= w1 * k <= w2 * k) by (nonlinear_arith)
                        requires
                            0 <= w1 <= w2,
                            k > 0,
                    ;
                    lemma_rounded_increases(w1 * k, w2 * k, den);
                } else {
                    assert(0 <= w2 * k <= w1 * k) by (nonlinear_arith)
                        requires
                            0 <= w2 <= w1,
                            k > 0,
                    ;
                    lemma_rounded_increases(w2 * k, w1 * k, den);
                }
            }
        }
    }
}

impl Scalar {
    /// A NaN, or a number whose sign bit is clear.
    pub open spec fn not_negative(self) -> bool {
        self.is_nan_spec() || !self.is_sign_negative_spec()
    }

    /// A square is not negative.
    pub proof fn lemma_square_not_negative(self)
        ensures
            self.mul_spec(self).not_negative(),
    {
        self.lemma_mul_not_negative_same_sign(self);
    }

    /// A product of two factors of one sign is not negative.
    pub proof fn lemma_mul_not_negative_same_sign(self, other: Scalar)
        requires
            self.is_sign_negative_spec() == other.is_sign_negative_spec(),
        ensures
            self.mul_spec(other).not_negative(),
    {
        assert(nan().is_nan_spec());
        if !self.is_nan_spec() && !other.is_nan_spec() && self.is_finite_spec()
            && other.is_finite_spec() {
            lemma_pow2_pos(1074);
            let n = (self.weight() * other.weight()) as int;
            assert(n >= 0) by (nonlinear_arith)
                requires
                    n == self.weight() * other.weight(),
            ;
            lemma_rounded_is_nearest(n, pow2(1074) as int);
        }
    }

    /// A sum of two terms that are not negative is not negative.
    pub proof fn lemma_add_not_negative(self, other: Scalar)
        requires
            self.not_negative(),
            other.not_negative(),
        ensures
            self.add_spec(other).not_negative(),
    {
        assert(nan().is_nan_spec());
        if !self.is_nan_spec() && !other.is_nan_spec() && self.is_finite_spec()
            && other.is_finite_spec() {
            let sum = self.numerator() + other.numerator();
            if sum > 0 {
                lemma_rounded_is_nearest(sum, 1);
            }
        }
    }

    /// A difference over a divisor that is not negative is not above the
    /// sum over it, where what is taken away and added is not negative:
    /// of the two roots `(c - r) / a` and `(c + r) / a` the first is the
    /// smaller.
    pub proof fn lemma_roots_in_order(c: Scalar, r: Scalar, a: Scalar)
        requires
            r.is_nan_spec() || r.numerator() >= 0,
            a.not_negative(),
        ensures
            !c.add_spec(r).div_spec(a).lt_spec(c.sub_spec(r).div_spec(a)),
    {
        lemma_sub_not_above_add(c, r);
        lemma_div_keeps_order(c.sub_spec(r), c.add_spec(r), a);
    }
}

} // verus!

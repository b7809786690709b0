//! Real numbers as the kernel holds them: IEEE-754 binary64 data, kept by
//! their bit patterns.
//!
//! Everything in this module is exact. Ordering, sign changes and clamping
//! read and write bits and never round, so each of them is proved against the
//! number that a bit pattern stands for.

use vstd::prelude::*;
use vstd::arithmetic::power2::pow2;
use vstd::arithmetic::power2::lemma_pow2_pos;
use vstd::arithmetic::power2::lemma_pow2_unfold;
use vstd::arithmetic::power2::lemma_pow2_strictly_increases;
use vstd::std_specs::cmp::PartialEqSpecImpl;
use vstd::std_specs::ops::NegSpecImpl;

verus! {

/// The sign bit of a bit pattern.
pub const SIGN_BIT: u64 = 0x8000_0000_0000_0000;

/// The bit pattern of positive infinity: every exponent bit set, no fraction bit.
pub const INFINITY_BITS: u64 = 0x7ff0_0000_0000_0000;

/// Two to the 52nd: one step of the exponent field, and the leading bit that a
/// normal significand leaves unwritten.
pub const HIDDEN_BIT: u64 = 0x0010_0000_0000_0000;

/// The bit pattern of 1.
pub const ONE_BITS: u64 = 0x3ff0_0000_0000_0000;

/// The absolute value that the low 63 bits `m` of a bit pattern stand for,
/// multiplied by two to the 1074th, which makes it a natural number.
///
/// With `e = m / 2^52` and `f = m % 2^52`: a subnormal (`e == 0`) is
/// `f * 2^-1074`, a normal number is `(2^52 + f) * 2^(e - 1075)`. The formula
/// is carried on through `e == 2047`, so that infinity counts as `2^1024` and
/// lies above every finite value.
pub open spec fn weight_of(m: u64) -> nat {
    let e = (m / HIDDEN_BIT) as nat;
    let f = (m % HIDDEN_BIT) as nat;
    if e == 0 {
        f
    } else {
        ((HIDDEN_BIT + f) * pow2((e - 1) as nat)) as nat
    }
}

/// A larger bit pattern stands for a larger absolute value.
pub proof fn lemma_weight_increases(m1: u64, m2: u64)
    requires
        m1 < m2,
    ensures
        weight_of(m1) < weight_of(m2),
{
    let e1 = (m1 / HIDDEN_BIT) as nat;
    let f1 = (m1 % HIDDEN_BIT) as nat;
    let e2 = (m2 / HIDDEN_BIT) as nat;
    let f2 = (m2 % HIDDEN_BIT) as nat;
    assert(e1 <= e2);
    assert(e2 >= 1 ==> weight_of(m2) >= HIDDEN_BIT * pow2((e2 - 1) as nat)) by {
        if e2 >= 1 {
            let p = pow2((e2 - 1) as nat);
            assert((HIDDEN_BIT + f2) * p >= HIDDEN_BIT * p) by (nonlinear_arith)
                requires
                    f2 >= 0,
                    p >= 0,
            ;
        }
    }
    if e1 == e2 {
        assert(f1 < f2);
        if e1 > 0 {
            let p = pow2((e1 - 1) as nat);
            lemma_pow2_pos((e1 - 1) as nat);
            assert((HIDDEN_BIT + f1) * p < (HIDDEN_BIT + f2) * p) by (nonlinear_arith)
                requires
                    f1 < f2,
                    p > 0,
            ;
        }
    } else if e1 == 0 {
        let p = pow2((e2 - 1) as nat);
        lemma_pow2_pos((e2 - 1) as nat);
        assert(HIDDEN_BIT * p >= HIDDEN_BIT) by (nonlinear_arith)
            requires
                p >= 1,
        ;
    } else {
        let low = pow2((e1 - 1) as nat);
        let high = pow2((e2 - 1) as nat);
        lemma_pow2_unfold(e1);
        if e1 < e2 - 1 {
            lemma_pow2_strictly_increases(e1, (e2 - 1) as nat);
        }
        lemma_pow2_pos((e1 - 1) as nat);
        assert(2 * low <= high);
        assert((HIDDEN_BIT + f1) * low < HIDDEN_BIT * high) by (nonlinear_arith)
            requires
                f1 < HIDDEN_BIT,
                2 * low <= high,
                low > 0,
        ;
    }
}

/// One binary64 datum: a number, an infinity or a NaN.
#[derive(Clone, Copy, Debug)]
pub struct Scalar {
    pub bits: u64,
}

impl Scalar {
    /// The sign bit is set. This holds of negative numbers, of negative zero,
    /// and of the NaNs that carry the bit.
    pub open spec fn is_sign_negative_spec(self) -> bool {
        self.bits >= SIGN_BIT
    }

    /// The bit pattern without its sign bit.
    pub open spec fn magnitude(self) -> u64 {
        if self.bits >= SIGN_BIT {
            (self.bits - SIGN_BIT) as u64
        } else {
            self.bits
        }
    }

    pub open spec fn is_nan_spec(self) -> bool {
        self.magnitude() > INFINITY_BITS
    }

    pub open spec fn is_infinite_spec(self) -> bool {
        self.magnitude() == INFINITY_BITS
    }

    /// Zero, subnormal or normal.
    pub open spec fn is_finite_spec(self) -> bool {
        self.magnitude() < INFINITY_BITS
    }

    /// The absolute value, multiplied by two to the 1074th.
    pub open spec fn weight(self) -> nat {
        weight_of(self.magnitude())
    }

    /// The value, multiplied by two to the 1074th: the integer `n` with
    /// `value == n / 2^1074`. Both zeros give 0. An infinity gives plus or
    /// minus `2^2098`, beyond every finite value. Of a NaN it says nothing
    /// that a contract of this library relies on.
    pub open spec fn numerator(self) -> int {
        if self.is_sign_negative_spec() {
            -(self.weight() as int)
        } else {
            self.weight() as int
        }
    }

    /// `self < other` as IEEE-754 orders them: false when either is a NaN.
    pub open spec fn lt_spec(self, other: Scalar) -> bool {
        !self.is_nan_spec() && !other.is_nan_spec() && self.numerator() < other.numerator()
    }

    /// `self <= other` as IEEE-754 orders them: false when either is a NaN.
    pub open spec fn le_spec(self, other: Scalar) -> bool {
        !self.is_nan_spec() && !other.is_nan_spec() && self.numerator() <= other.numerator()
    }

    /// `self > other`: `other < self`.
    pub open spec fn gt_spec(self, other: Scalar) -> bool {
        other.lt_spec(self)
    }

    /// `self >= other`: `other <= self`.
    pub open spec fn ge_spec(self, other: Scalar) -> bool {
        other.le_spec(self)
    }

    /// `self` lies strictly inside the interval from `low` to `high`.
    pub open spec fn between_spec(self, low: Scalar, high: Scalar) -> bool {
        low.lt_spec(self) && self.lt_spec(high)
    }

    /// `self == other` as IEEE-754 has it: the two zeros are equal, and a NaN
    /// equals nothing, itself included.
    pub open spec fn same_value(self, other: Scalar) -> bool {
        !self.is_nan_spec() && !other.is_nan_spec() && self.numerator() == other.numerator()
    }

    /// The datum with its sign bit flipped.
    pub open spec fn negated(self) -> Scalar {
        if self.bits >= SIGN_BIT {
            Scalar { bits: (self.bits - SIGN_BIT) as u64 }
        } else {
            Scalar { bits: (self.bits + SIGN_BIT) as u64 }
        }
    }

    /// The datum with its sign bit cleared.
    pub open spec fn abs_spec(self) -> Scalar {
        Scalar { bits: self.magnitude() }
    }

    /// The lesser of two data, where a NaN yields to a number.
    pub open spec fn min_spec(self, other: Scalar) -> Scalar {
        if other.is_nan_spec() || self.lt_spec(other) {
            self
        } else {
            other
        }
    }

    /// The greater of two data, where a NaN yields to a number.
    pub open spec fn max_spec(self, other: Scalar) -> Scalar {
        if other.is_nan_spec() || other.lt_spec(self) {
            self
        } else {
            other
        }
    }

    /// Positive zero.
    pub open spec fn zero_spec() -> Scalar {
        Scalar { bits: 0 }
    }

    /// One.
    pub open spec fn one_spec() -> Scalar {
        Scalar { bits: ONE_BITS }
    }

    /// The datum brought into `[0, 1]`: 1 where it is 1, above 1 or a NaN,
    /// positive zero where it is zero or below, itself otherwise.
    pub open spec fn saturate_spec(self) -> Scalar {
        if self.is_nan_spec() || !self.lt_spec(Scalar::one_spec()) {
            Scalar::one_spec()
        } else if Scalar::zero_spec().lt_spec(self) {
            self
        } else {
            Scalar::zero_spec()
        }
    }

    /// Bit patterns order absolute values: comparing the low 63 bits of two
    /// data compares what they stand for.
    pub proof fn lemma_order_by_bits(self, other: Scalar)
        ensures
            (self.weight() < other.weight()) == (self.magnitude() < other.magnitude()),
            (self.weight() == other.weight()) == (self.magnitude() == other.magnitude()),
            (self.weight() == 0) == (self.magnitude() == 0),
    {
        let a = self.magnitude();
        let b = other.magnitude();
        if a < b {
            lemma_weight_increases(a, b);
        } else if b < a {
            lemma_weight_increases(b, a);
        }
        if a > 0 {
            lemma_weight_increases(0, a);
        }
    }

    pub fn from_bits(bits: u64) -> (s: Scalar)
        ensures
            s.bits == bits,
    {
        Scalar { bits }
    }

    pub fn to_bits(self) -> (bits: u64)
        ensures
            bits == self.bits,
    {
        self.bits
    }

    /// Positive zero.
    #[verifier::when_used_as_spec(zero_spec)]
    pub fn zero() -> (s: Scalar)
        ensures
            s == Scalar::zero_spec(),
    {
        Scalar { bits: 0 }
    }

    /// One.
    #[verifier::when_used_as_spec(one_spec)]
    pub fn one() -> (s: Scalar)
        ensures
            s == Scalar::one_spec(),
    {
        Scalar { bits: ONE_BITS }
    }

    pub fn is_sign_negative(self) -> (r: bool)
        ensures
            r == self.is_sign_negative_spec(),
    {
        self.bits >= SIGN_BIT
    }

    pub fn abs(self) -> (r: Scalar)
        ensures
            r == self.abs_spec(),
            r.bits == self.magnitude(),
    {
        if self.bits >= SIGN_BIT {
            Scalar { bits: self.bits - SIGN_BIT }
        } else {
            self
        }
    }

    pub fn is_nan(self) -> (r: bool)
        ensures
            r == self.is_nan_spec(),
    {
        self.abs().bits > INFINITY_BITS
    }

    pub fn is_infinite(self) -> (r: bool)
        ensures
            r == self.is_infinite_spec(),
    {
        self.abs().bits == INFINITY_BITS
    }

    pub fn is_finite(self) -> (r: bool)
        ensures
            r == self.is_finite_spec(),
    {
        self.abs().bits < INFINITY_BITS
    }

    pub fn lt(self, other: Scalar) -> (r: bool)
        ensures
            r == self.lt_spec(other),
    {
        if self.is_nan() || other.is_nan() {
            return false;
        }
        let a = self.abs().bits;
        let b = other.abs().bits;
        proof {
            self.lemma_order_by_bits(other);
            other.lemma_order_by_bits(self);
        }
        if self.is_sign_negative() {
            if other.is_sign_negative() {
                b < a
            } else {
                !(a == 0 && b == 0)
            }
        } else {
            if other.is_sign_negative() {
                false
            } else {
                a < b
            }
        }
    }

    pub fn le(self, other: Scalar) -> (r: bool)
        ensures
            r == self.le_spec(other),
    {
        if self.is_nan() || other.is_nan() {
            return false;
        }
        !other.lt(self)
    }

    pub fn gt(self, other: Scalar) -> (r: bool)
        ensures
            r == self.gt_spec(other),
    {
        other.lt(self)
    }

    pub fn ge(self, other: Scalar) -> (r: bool)
        ensures
            r == self.ge_spec(other),
    {
        other.le(self)
    }

    pub fn between(self, low: Scalar, high: Scalar) -> (r: bool)
        ensures
            r == self.between_spec(low, high),
    {
        low.lt(self) && self.lt(high)
    }

    pub fn min(self, other: Scalar) -> (r: Scalar)
        ensures
            r == self.min_spec(other),
    {
        if other.is_nan() || self.lt(other) {
            self
        } else {
            other
        }
    }

    pub fn max(self, other: Scalar) -> (r: Scalar)
        ensures
            r == self.max_spec(other),
    {
        if other.is_nan() || other.lt(self) {
            self
        } else {
            other
        }
    }

    /// Clamps into `[0, 1]`, as `min(1)` followed by `max(0)` does.
    pub fn saturate(self) -> (r: Scalar)
        ensures
            r == self.min_spec(Scalar::one()).max_spec(Scalar::zero()),
            r == self.saturate_spec(),
            Scalar::zero().le_spec(r),
            r.le_spec(Scalar::one()),
    {
        let r = self.min(Scalar::one()).max(Scalar::zero());
        proof {
            r.lemma_order_by_bits(Scalar::one());
            Scalar::one().lemma_order_by_bits(r);
            r.lemma_order_by_bits(Scalar::zero());
            self.lemma_order_by_bits(Scalar::one());
        }
        r
    }
}

impl PartialEq for Scalar {
    fn eq(&self, other: &Scalar) -> (r: bool) {
        if self.is_nan() || other.is_nan() {
            return false;
        }
        let a = self.abs().bits;
        let b = other.abs().bits;
        proof {
            self.lemma_order_by_bits(*other);
        }
        a == b && (a == 0 || self.is_sign_negative() == other.is_sign_negative())
    }
}

impl PartialEqSpecImpl for Scalar {
    open spec fn obeys_eq_spec() -> bool {
        true
    }

    open spec fn eq_spec(&self, other: &Scalar) -> bool {
        self.same_value(*other)
    }
}

impl core::ops::Neg for Scalar {
    type Output = Scalar;

    fn neg(self) -> (r: Scalar) {
        if self.bits >= SIGN_BIT {
            Scalar { bits: self.bits - SIGN_BIT }
        } else {
            Scalar { bits: self.bits + SIGN_BIT }
        }
    }
}

impl NegSpecImpl for Scalar {
    open spec fn obeys_neg_spec() -> bool {
        true
    }

    open spec fn neg_req(self) -> bool {
        true
    }

    open spec fn neg_spec(self) -> Scalar {
        self.negated()
    }
}

/// Negation keeps the absolute value and turns the sign, so it mirrors the
/// order: `-a < -b` exactly when `b < a`.
pub proof fn lemma_negation_mirrors(a: Scalar, b: Scalar)
    ensures
        a.negated().magnitude() == a.magnitude(),
        a.negated().is_sign_negative_spec() != a.is_sign_negative_spec(),
        a.negated().is_nan_spec() == a.is_nan_spec(),
        a.negated().negated() == a,
        a.negated().numerator() == -a.numerator(),
        a.negated().lt_spec(b.negated()) == b.lt_spec(a),
{
}

} // verus!

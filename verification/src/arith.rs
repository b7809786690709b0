//! Arithmetic on scalars as IEEE-754 defines it: every result is the exact
//! result rounded to the nearest number, ties to the even one. The operations
//! work on the bit patterns with integers alone.

use vstd::prelude::*;
use vstd::arithmetic::power2::pow2;
use vstd::arithmetic::power2::lemma_pow2_pos;
use vstd::arithmetic::power2::lemma_pow2_adds;
use vstd::arithmetic::power2::lemma2_to64;
use vstd::arithmetic::power2::lemma_pow2_unfold;
use vstd::std_specs::ops::AddSpecImpl;
use vstd::std_specs::ops::DivSpecImpl;
use vstd::std_specs::ops::MulSpecImpl;
use vstd::std_specs::ops::SubSpecImpl;
use core::ops::Neg;
use crate::round::lemma_bracket;
use crate::round::lemma_half_step;
use crate::round::lemma_rounds_to_some;
use crate::round::lemma_step_is_small;
use crate::round::off;
use crate::round::step_of;
use crate::round::lemma_pow2_increases;
use crate::round::lemma_pow2_top;
use crate::round::lemma_step;
use crate::round::pow2_u128;
use crate::round::round_pack_between;
use crate::round::lemma_rounds_to_one;
use crate::round::lemma_same_fraction;
use crate::round::nearest_even;
use crate::round::neg_part;
use crate::round::pos_part;
use crate::round::round_pack;
use crate::scalar::weight_of;
use crate::scalar::Scalar;
use crate::scalar::HIDDEN_BIT;
use crate::scalar::INFINITY_BITS;
use crate::scalar::SIGN_BIT;

verus! {

/// The bit pattern of the NaN that the operations return.
pub const NAN_BITS: u64 = 0x7ff8_0000_0000_0000;

/// The bit pattern to which the fraction `num / den / 2^1074` is rounded.
pub open spec fn rounded(num: int, den: int) -> u64 {
    choose|m: u64| nearest_even(m, num, den)
}

/// What is rounded to a bit pattern is `rounded` of it.
pub proof fn lemma_rounded(m: u64, num: int, den: int)
    requires
        nearest_even(m, num, den),
        den > 0,
    ensures
        m == rounded(num, den),
{
    lemma_rounds_to_one(m, rounded(num, den), num, den);
}

/// The scalar with the absolute value of the bit pattern `m` and the sign
/// given.
pub open spec fn signed(m: u64, negative: bool) -> Scalar {
    if negative {
        Scalar { bits: (m + SIGN_BIT) as u64 }
    } else {
        Scalar { bits: m }
    }
}

/// The NaN that the operations return.
pub open spec fn nan() -> Scalar {
    Scalar { bits: NAN_BITS }
}

pub(crate) fn with_sign(m: u64, negative: bool) -> (s: Scalar)
    requires
        m < SIGN_BIT,
    ensures
        s == signed(m, negative),
        s.magnitude() == m,
        s.is_sign_negative_spec() == negative,
{
    if negative {
        Scalar { bits: m + SIGN_BIT }
    } else {
        Scalar { bits: m }
    }
}

/// The significand and the exponent step of a finite bit pattern: the
/// pattern stands for `mant * 2^step`.
pub(crate) fn split(m: u64) -> (r: (u64, i64))
    requires
        m < INFINITY_BITS,
    ensures
        r.0 < 2 * HIDDEN_BIT,
        0 <= r.1 <= 2045,
        weight_of(m) == r.0 * pow2(r.1 as nat),
        (r.0 == 0) == (m == 0),
        r.1 > 0 ==> r.0 >= HIDDEN_BIT,
{
    let e = m / HIDDEN_BIT;
    let f = m % HIDDEN_BIT;
    proof {
        lemma2_to64();
    }
    if e == 0 {
        proof {
            assert(f * pow2(0) == f);
        }
        (f, 0)
    } else {
        (HIDDEN_BIT + f, (e - 1) as i64)
    }
}

impl Scalar {
    /// The product as IEEE-754 defines it. A NaN gives a NaN, and so does
    /// zero times infinity. Infinity times anything else is infinity. The
    /// sign is negative where one factor is negative and the other is not.
    pub open spec fn mul_spec(self, other: Scalar) -> Scalar {
        let negative = self.is_sign_negative_spec() != other.is_sign_negative_spec();
        if self.is_nan_spec() || other.is_nan_spec() {
            nan()
        } else if self.is_infinite_spec() || other.is_infinite_spec() {
            if self.magnitude() == 0 || other.magnitude() == 0 {
                nan()
            } else {
                signed(INFINITY_BITS, negative)
            }
        } else {
            signed(rounded((self.weight() * other.weight()) as int, pow2(1074) as int), negative)
        }
    }
}

impl core::ops::Mul<Scalar> for Scalar {
    type Output = Scalar;

    fn mul(self, other: Scalar) -> (r: Scalar) {
        if self.is_nan() || other.is_nan() {
            return Scalar { bits: NAN_BITS };
        }
        let negative = self.is_sign_negative() != other.is_sign_negative();
        let a = self.abs().bits;
        let b = other.abs().bits;
        if a == INFINITY_BITS || b == INFINITY_BITS {
            if a == 0 || b == 0 {
                return Scalar { bits: NAN_BITS };
            }
            return with_sign(INFINITY_BITS, negative);
        }
        let (ma, ua) = split(a);
        let (mb, ub) = split(b);
        proof {
            lemma_pow2_top();
            assert((ma as u128) * (mb as u128) < pow2(120)) by (nonlinear_arith)
                requires
                    ma < 0x20_0000_0000_0000,
                    mb < 0x20_0000_0000_0000,
                    pow2(120) == 0x100_0000_0000_0000_0000_0000_0000_0000,
            ;
        }
        let sig: u128 = (ma as u128) * (mb as u128);
        let q: i64 = ua + ub - 1074;
        let m = round_pack(sig, q);
        proof {
            let qp = pos_part(q as int);
            let qn = neg_part(q as int);
            let pa = pow2(ua as nat) as int;
            let pb = pow2(ub as nat) as int;
            lemma_pow2_adds(ua as nat, ub as nat);
            lemma_pow2_adds(qp, 1074);
            lemma_pow2_adds((ua + ub) as nat, qn);
            lemma_pow2_pos(qn);
            lemma_pow2_pos(1074);
            let wa = weight_of(a) as int;
            let wb = weight_of(b) as int;
            assert((sig * pow2(qp)) * pow2(1074) == (wa * wb) * pow2(qn)) by (nonlinear_arith)
                requires
                    sig == ma * mb,
                    wa == ma * pa,
                    wb == mb * pb,
                    pow2(qp) * pow2(1074) == pa * pb * pow2(qn),
            ;
            lemma_same_fraction(m, sig * pow2(qp), pow2(qn) as int, wa * wb, pow2(1074) as int);
            lemma_rounded(m, wa * wb, pow2(1074) as int);
        }
        with_sign(m, negative)
    }
}

impl MulSpecImpl<Scalar> for Scalar {
    open spec fn obeys_mul_spec() -> bool {
        true
    }

    open spec fn mul_req(self, other: Scalar) -> bool {
        true
    }

    open spec fn mul_spec(self, other: Scalar) -> Scalar {
        Scalar::mul_spec(self, other)
    }
}

/// A bit pattern stands for itself: nothing is rounded.
pub proof fn lemma_rounded_exact(m: u64)
    requires
        m < INFINITY_BITS,
    ensures
        nearest_even(m, weight_of(m) as int, 1),
        m == rounded(weight_of(m) as int, 1),
{
    lemma_step(m);
    lemma_bracket(m, weight_of(m) as int, 1, false);
    lemma_rounded(m, weight_of(m) as int, 1);
}

impl Scalar {
    /// The sum as IEEE-754 defines it. A NaN gives a NaN, and so do two
    /// infinities of opposite signs. An infinity and anything else give that
    /// infinity. A sum that is exactly zero is positive zero, unless both
    /// terms are negative.
    pub open spec fn add_spec(self, other: Scalar) -> Scalar {
        let sum = self.numerator() + other.numerator();
        if self.is_nan_spec() || other.is_nan_spec() {
            nan()
        } else if self.is_infinite_spec() && other.is_infinite_spec() {
            if self.is_sign_negative_spec() == other.is_sign_negative_spec() {
                self
            } else {
                nan()
            }
        } else if self.is_infinite_spec() {
            self
        } else if other.is_infinite_spec() {
            other
        } else if sum == 0 {
            signed(0, self.is_sign_negative_spec() && other.is_sign_negative_spec())
        } else if sum < 0 {
            signed(rounded(-sum, 1), true)
        } else {
            signed(rounded(sum, 1), false)
        }
    }

    /// The difference as IEEE-754 defines it: the sum with the second term
    /// negated.
    pub open spec fn sub_spec(self, other: Scalar) -> Scalar {
        self.add_spec(other.negated())
    }
}

/// The sum of two finite numbers, the one with the larger exponent step
/// first.
fn add_ordered(mx: u64, ux: i64, sx: bool, my: u64, uy: i64, sy: bool) -> (r: Scalar)
    requires
        mx < 2 * HIDDEN_BIT,
        my < 2 * HIDDEN_BIT,
        0 <= uy <= ux <= 2045,
        ux > 0 ==> mx >= HIDDEN_BIT,
    ensures
        ({
            let nx = if sx {
                -(mx * pow2(ux as nat))
            } else {
                mx * pow2(ux as nat)
            };
            let ny = if sy {
                -(my * pow2(uy as nat))
            } else {
                my * pow2(uy as nat)
            };
            let sum = nx + ny;
            r == (if sum == 0 {
                signed(0, sx && sy)
            } else if sum < 0 {
                signed(rounded(-sum, 1), true)
            } else {
                signed(rounded(sum, 1), false)
            })
        }),
{
    let diff = ux - uy;
    let ghost px = pow2(ux as nat) as int;
    let ghost py = pow2(uy as nat) as int;
    let ghost wx = mx * px;
    let ghost wy = my * py;
    proof {
        lemma_pow2_top();
        lemma2_to64();
        lemma_pow2_pos(ux as nat);
        lemma_pow2_pos(uy as nat);
        assert(wx >= 0 && wy >= 0) by (nonlinear_arith)
            requires
                wx == mx * px,
                wy == my * py,
                px > 0,
                py > 0,
        ;
    }
    if diff <= 66 {
        let scale = pow2_u128(diff as u64);
        proof {
            lemma_pow2_adds(diff as nat, uy as nat);
            lemma_pow2_increases(diff as nat, 66);
            assert((mx as u128) * scale < 0x80_0000_0000_0000_0000_0000_0000_0000)
                by (nonlinear_arith)
                requires
                    mx < 0x20_0000_0000_0000,
                    0 < scale <= 0x4_0000_0000_0000_0000,
            ;
        }
        let a: u128 = (mx as u128) * scale;
        let b: u128 = my as u128;
        proof {
            assert(wx == a * py) by (nonlinear_arith)
                requires
                    wx == mx * px,
                    a == mx * scale,
                    px == scale * py,
            ;
        }
        let (sig, negative): (u128, bool) = if sx == sy {
            (a + b, sx)
        } else if a >= b {
            ((a - b) as u128, sx && a > b)
        } else {
            ((b - a) as u128, sy)
        };
        let m = round_pack(sig, uy);
        proof {
            let nx = if sx {
                -wx
            } else {
                wx
            };
            let ny = if sy {
                -wy
            } else {
                wy
            };
            let sum = nx + ny;
            assert(pow2(0) == 1);
            assert(neg_part(uy as int) == 0 && pos_part(uy as int) == uy);
            if sx == sy {
                assert(sig * py == wx + wy) by (nonlinear_arith)
                    requires
                        sig == a + b,
                        wx == a * py,
                        wy == b * py,
                ;
            } else if a >= b {
                assert(sig * py == wx - wy) by (nonlinear_arith)
                    requires
                        sig == a - b,
                        wx == a * py,
                        wy == b * py,
                ;
            } else {
                assert(sig * py == wy - wx) by (nonlinear_arith)
                    requires
                        sig == b - a,
                        wx == a * py,
                        wy == b * py,
                ;
            }
            assert((sig == 0) == (sig * py == 0)) by (nonlinear_arith)
                requires
                    py > 0,
                    sig >= 0,
            ;
            lemma_rounded(m, sig * py, 1);
            if sig == 0 {
                lemma_rounded_exact(0);
                assert(weight_of(0) == 0);
            }
        }
        if sig == 0 {
            return with_sign(0, sx && sy);
        }
        return with_sign(m, negative);
    }
    proof {
        assert(ux >= 67);
        lemma_pow2_adds(53, uy as nat);
        lemma_pow2_increases((53 + uy) as nat, (ux - 14) as nat);
        lemma_pow2_increases((ux - 14) as nat, (ux - 2) as nat);
        lemma_pow2_adds(2, (ux - 2) as nat);
        assert(wy < pow2((ux - 2) as nat)) by (nonlinear_arith)
            requires
                wy == my * py,
                my < pow2(53),
                pow2(53) * py <= pow2((ux - 2) as nat),
                py > 0,
        ;
        assert(wx >= pow2(52) * px) by (nonlinear_arith)
            requires
                wx == mx * px,
                mx >= pow2(52),
                px > 0,
        ;
        assert(neg_part((ux - 2) as int) == 0 && pos_part((ux - 2) as int) == ux - 2);
        assert(pow2(0) == 1);
    }
    let ghost pq = pow2((ux - 2) as nat) as int;
    if my == 0 {
        let m = round_pack(mx as u128, ux);
        proof {
            assert(neg_part(ux as int) == 0 && pos_part(ux as int) == ux);
            assert(wy == 0);
            lemma_rounded(m, wx, 1);
        }
        return with_sign(m, sx);
    }
    proof {
        assert(wy > 0) by (nonlinear_arith)
            requires
                wy == my * py,
                my > 0,
                py > 0,
        ;
    }
    if sx == sy {
        let sig: u128 = 4 * (mx as u128);
        proof {
            assert(sig * pq == wx) by (nonlinear_arith)
                requires
                    sig == 4 * mx,
                    wx == mx * px,
                    px == 4 * pq,
            ;
            assert(1 * (sig * pq) < (wx + wy) * 1);
            assert((wx + wy) * 1 < 1 * (sig * pq + pq));
        }
        let m = round_pack_between(sig, ux - 2, Ghost(wx + wy), Ghost(1));
        proof {
            lemma_rounded(m, wx + wy, 1);
        }
        with_sign(m, sx)
    } else {
        let sig: u128 = (4 * (mx as u128) - 1) as u128;
        proof {
            assert(sig * pq + pq == wx) by (nonlinear_arith)
                requires
                    sig == 4 * mx - 1,
                    wx == mx * px,
                    px == 4 * pq,
            ;
            assert(1 * (sig * pq) < (wx - wy) * 1);
            assert((wx - wy) * 1 < 1 * (sig * pq + pq));
        }
        let m = round_pack_between(sig, ux - 2, Ghost(wx - wy), Ghost(1));
        proof {
            lemma_rounded(m, wx - wy, 1);
        }
        with_sign(m, sx)
    }
}

impl core::ops::Add<Scalar> for Scalar {
    type Output = Scalar;

    fn add(self, other: Scalar) -> (r: Scalar) {
        if self.is_nan() || other.is_nan() {
            return Scalar { bits: NAN_BITS };
        }
        let sa = self.is_sign_negative();
        let sb = other.is_sign_negative();
        let a = self.abs().bits;
        let b = other.abs().bits;
        if a == INFINITY_BITS {
            if b == INFINITY_BITS && sa != sb {
                return Scalar { bits: NAN_BITS };
            }
            return self;
        }
        if b == INFINITY_BITS {
            return other;
        }
        let (ma, ua) = split(a);
        let (mb, ub) = split(b);
        if ua >= ub {
            add_ordered(ma, ua, sa, mb, ub, sb)
        } else {
            add_ordered(mb, ub, sb, ma, ua, sa)
        }
    }
}

impl AddSpecImpl<Scalar> for Scalar {
    open spec fn obeys_add_spec() -> bool {
        true
    }

    open spec fn add_req(self, other: Scalar) -> bool {
        true
    }

    open spec fn add_spec(self, other: Scalar) -> Scalar {
        Scalar::add_spec(self, other)
    }
}

impl core::ops::Sub<Scalar> for Scalar {
    type Output = Scalar;

    fn sub(self, other: Scalar) -> (r: Scalar) {
        self + other.neg()
    }
}

impl SubSpecImpl<Scalar> for Scalar {
    open spec fn obeys_sub_spec() -> bool {
        true
    }

    open spec fn sub_req(self, other: Scalar) -> bool {
        true
    }

    open spec fn sub_spec(self, other: Scalar) -> Scalar {
        Scalar::sub_spec(self, other)
    }
}

/// Cross-multiplied, the quotient of two significands with their exponents is
/// the quotient of the two numbers.
proof fn lemma_quotient_cross(
    ma: int,
    mb: int,
    wa: int,
    wb: int,
    p: int,
    a: int,
    b: int,
    c: int,
    d: int,
    z: int,
    s: int,
)
    requires
        p > 0,
        wa * p == ma * a,
        wb * p == mb * b,
        s * c * b == a * z * d,
    ensures
        ((ma * s) * c) * wb == ((wa * z) * d) * mb,
{
    let sc = s * c;
    let zd = z * d;
    let x = ((ma * s) * c) * wb;
    let y = ((wa * z) * d) * mb;
    assert((ma * s) * c == ma * sc) by (nonlinear_arith)
        requires
            sc == s * c,
    ;
    assert((wa * z) * d == wa * zd) by (nonlinear_arith)
        requires
            zd == z * d,
    ;
    assert(sc * b == a * zd) by (nonlinear_arith)
        requires
            s * c * b == a * z * d,
            sc == s * c,
            zd == z * d,
    ;
    let mbb = mb * b;
    let maa = ma * a;
    assert(x * p == (ma * sc) * mbb) by (nonlinear_arith)
        requires
            x == (ma * sc) * wb,
            wb * p == mbb,
    ;
    assert((ma * sc) * mbb == (ma * mb) * (sc * b)) by (nonlinear_arith)
        requires
            mbb == mb * b,
    ;
    assert(y * p == (maa * zd) * mb) by (nonlinear_arith)
        requires
            y == (wa * zd) * mb,
            wa * p == maa,
    ;
    assert((maa * zd) * mb == (ma * mb) * (a * zd)) by (nonlinear_arith)
        requires
            maa == ma * a,
    ;
    assert(x == y) by (nonlinear_arith)
        requires
            x * p == y * p,
            p > 0,
    ;
}

/// The significand of a finite bit pattern that is not zero, shifted up
/// until its leading bit is the 53rd, and the exponent that goes with it: the
/// pattern stands for `mant * 2^t / 2^52`.
pub(crate) fn split_normal(m: u64) -> (r: (u64, i64))
    requires
        0 < m < INFINITY_BITS,
    ensures
        HIDDEN_BIT <= r.0 < 2 * HIDDEN_BIT,
        0 <= r.1 <= 2097,
        weight_of(m) * pow2(52) == r.0 * pow2(r.1 as nat),
{
    let (m0, u) = split(m);
    let mut mant: u64 = m0;
    let mut t: i64 = u + 52;
    proof {
        lemma_pow2_top();
        lemma2_to64();
        lemma_pow2_adds(u as nat, 52);
        crate::scalar::lemma_weight_increases(0, m);
        assert(weight_of(m) * pow2(52) == mant * pow2(t as nat)) by (nonlinear_arith)
            requires
                weight_of(m) == m0 * pow2(u as nat),
                mant == m0,
                pow2(t as nat) == pow2(u as nat) * pow2(52),
        ;
    }
    while mant < HIDDEN_BIT
        invariant
            0 < mant < 2 * HIDDEN_BIT,
            0 <= t <= 2097,
            weight_of(m) >= 1,
            weight_of(m) * pow2(52) == mant * pow2(t as nat),
        decreases t,
    {
        proof {
            lemma_pow2_top();
            lemma2_to64();
            if t == 0 {
                assert(mant * pow2(0) == mant);
                assert(weight_of(m) * pow2(52) >= pow2(52)) by (nonlinear_arith)
                    requires
                        weight_of(m) >= 1,
                        pow2(52) > 0,
                ;
                assert(false);
            }
            lemma_pow2_unfold(t as nat);
            assert((2 * mant) * pow2((t - 1) as nat) == mant * pow2(t as nat)) by (nonlinear_arith)
                requires
                    pow2(t as nat) == 2 * pow2((t - 1) as nat),
            ;
        }
        mant = 2 * mant;
        t = t - 1;
    }
    (mant, t)
}

impl Scalar {
    /// The quotient as IEEE-754 defines it. A NaN gives a NaN, and so do
    /// zero by zero and infinity by infinity. Anything else by zero, and
    /// infinity by anything else, is infinity; anything else by infinity is
    /// zero. The sign is negative where one of the two is negative and the
    /// other is not.
    pub open spec fn div_spec(self, other: Scalar) -> Scalar {
        let negative = self.is_sign_negative_spec() != other.is_sign_negative_spec();
        if self.is_nan_spec() || other.is_nan_spec() {
            nan()
        } else if self.is_infinite_spec() {
            if other.is_infinite_spec() {
                nan()
            } else {
                signed(INFINITY_BITS, negative)
            }
        } else if other.is_infinite_spec() {
            signed(0, negative)
        } else if other.magnitude() == 0 {
            if self.magnitude() == 0 {
                nan()
            } else {
                signed(INFINITY_BITS, negative)
            }
        } else if self.magnitude() == 0 {
            signed(0, negative)
        } else {
            signed(rounded((self.weight() * pow2(1074)) as int, other.weight() as int), negative)
        }
    }
}

impl core::ops::Div<Scalar> for Scalar {
    type Output = Scalar;

    fn div(self, other: Scalar) -> (r: Scalar) {
        if self.is_nan() || other.is_nan() {
            return Scalar { bits: NAN_BITS };
        }
        let negative = self.is_sign_negative() != other.is_sign_negative();
        let a = self.abs().bits;
        let b = other.abs().bits;
        if a == INFINITY_BITS {
            if b == INFINITY_BITS {
                return Scalar { bits: NAN_BITS };
            }
            return with_sign(INFINITY_BITS, negative);
        }
        if b == INFINITY_BITS {
            return with_sign(0, negative);
        }
        if b == 0 {
            if a == 0 {
                return Scalar { bits: NAN_BITS };
            }
            return with_sign(INFINITY_BITS, negative);
        }
        if a == 0 {
            return with_sign(0, negative);
        }
        let (ma, ta) = split_normal(a);
        let (mb, tb) = split_normal(b);
        proof {
            lemma_pow2_top();
            lemma2_to64();
            vstd::arithmetic::power2::lemma2_to64_rest();
        }
        let top: u128 = (ma as u128) * 0x1_0000_0000_0000_0000;
        let quot: u128 = top / (mb as u128);
        let rest: u128 = top % (mb as u128);
        let q: i64 = ta - tb + 1010;
        let ghost wa = weight_of(a) as int;
        let ghost wb = weight_of(b) as int;
        let ghost qp = pos_part(q as int);
        let ghost qn = neg_part(q as int);
        let ghost num = wa * pow2(1074);
        proof {
            assert(top == quot * mb + rest) by {
                vstd::arithmetic::div_mod::lemma_fundamental_div_mod(top as int, mb as int);
                assert(mb * quot == quot * mb) by (nonlinear_arith);
            }
            assert(quot >= pow2(53)) by (nonlinear_arith)
                requires
                    top == quot * mb + rest,
                    rest < mb,
                    top == ma * 0x1_0000_0000_0000_0000,
                    ma >= 0x10_0000_0000_0000,
                    mb < 0x20_0000_0000_0000,
                    pow2(53) == 0x20_0000_0000_0000,
            ;
            assert(quot < pow2(120)) by (nonlinear_arith)
                requires
                    top == quot * mb + rest,
                    top == ma * 0x1_0000_0000_0000_0000,
                    ma < 0x20_0000_0000_0000,
                    mb >= 0x10_0000_0000_0000,
                    pow2(120) == 0x100_0000_0000_0000_0000_0000_0000_0000,
            ;
            lemma_pow2_pos(qp);
            lemma_pow2_pos(qn);
            lemma_pow2_pos(52);
            lemma_pow2_pos(ta as nat);
            lemma_pow2_pos(tb as nat);
            lemma_pow2_adds(64, qp);
            lemma_pow2_adds((64 + qp) as nat, tb as nat);
            lemma_pow2_adds(ta as nat, 1074);
            lemma_pow2_adds((ta + 1074) as nat, qn);
            assert(pow2(64) == 0x1_0000_0000_0000_0000);
            assert(wb > 0) by (nonlinear_arith)
                requires
                    wb * pow2(52) == mb * pow2(tb as nat),
                    mb > 0,
                    pow2(tb as nat) > 0,
                    pow2(52) > 0,
            ;
            assert(pow2(64) * pow2(qp) * pow2(tb as nat) == pow2(ta as nat) * pow2(1074) * pow2(
                qn,
            ));
            lemma_quotient_cross(
                ma as int,
                mb as int,
                wa,
                wb,
                pow2(52) as int,
                pow2(ta as nat) as int,
                pow2(tb as nat) as int,
                pow2(qp) as int,
                pow2(qn) as int,
                pow2(1074) as int,
                pow2(64) as int,
            );
            assert(top == ma * pow2(64));
            assert((top * pow2(qp)) * wb == (num * pow2(qn)) * mb);
        }
        if rest == 0 {
            let m = round_pack(quot, q);
            proof {
                assert((quot * pow2(qp)) * wb == num * pow2(qn)) by (nonlinear_arith)
                    requires
                        (top * pow2(qp)) * wb == (num * pow2(qn)) * mb,
                        top == quot * mb,
                        mb > 0,
                ;
                lemma_same_fraction(m, quot * pow2(qp), pow2(qn) as int, num, wb);
                lemma_rounded(m, num, wb);
            }
            with_sign(m, negative)
        } else {
            proof {
                assert(wb * (quot * pow2(qp)) < num * pow2(qn)) by (nonlinear_arith)
                    requires
                        (top * pow2(qp)) * wb == (num * pow2(qn)) * mb,
                        top == quot * mb + rest,
                        rest > 0,
                        mb > 0,
                        wb > 0,
                        pow2(qp) > 0,
                ;
                assert(num * pow2(qn) < wb * (quot * pow2(qp) + pow2(qp))) by (nonlinear_arith)
                    requires
                        (top * pow2(qp)) * wb == (num * pow2(qn)) * mb,
                        top == quot * mb + rest,
                        rest < mb,
                        mb > 0,
                        wb > 0,
                        pow2(qp) > 0,
                ;
            }
            let m = round_pack_between(quot, q, Ghost(num), Ghost(wb));
            proof {
                lemma_rounded(m, num, wb);
            }
            with_sign(m, negative)
        }
    }
}

impl DivSpecImpl<Scalar> for Scalar {
    open spec fn obeys_div_spec() -> bool {
        true
    }

    open spec fn div_req(self, other: Scalar) -> bool {
        true
    }

    open spec fn div_spec(self, other: Scalar) -> Scalar {
        Scalar::div_spec(self, other)
    }
}

/// `rounded` is what its fraction is rounded to.
pub proof fn lemma_rounded_is_nearest(num: int, den: int)
    requires
        num >= 0,
        den > 0,
    ensures
        nearest_even(rounded(num, den), num, den),
{
    let m = lemma_rounds_to_some(num, den);
}

impl Scalar {
    /// A finite sum misses the exact sum by half a step of its own at most:
    /// by the 2^53rd part of its absolute value, or by half of the least
    /// number where it is subnormal.
    pub proof fn lemma_add_error(self, other: Scalar)
        requires
            self.is_finite_spec(),
            other.is_finite_spec(),
            self.add_spec(other).is_finite_spec(),
        ensures
            ({
                let sum = self.add_spec(other);
                let error = sum.numerator() - (self.numerator() + other.numerator());
                -(sum.weight() + pow2(52)) <= error * pow2(53) <= sum.weight() + pow2(52)
            }),
    {
        let exact = self.numerator() + other.numerator();
        let sum = self.add_spec(other);
        lemma_pow2_top();
        lemma_pow2_pos(52);
        assert(weight_of(0) == 0);
        if exact != 0 {
            let num = if exact < 0 {
                -exact
            } else {
                exact
            };
            let m = rounded(num, 1);
            lemma_rounded_is_nearest(num, 1);
            assert(sum.magnitude() == m);
            lemma_half_step(m, num, 1);
            lemma_step_is_small(m);
            let o = off(m, num, 1);
            let st = step_of(m) as int;
            assert(o * pow2(53) <= st * pow2(52)) by (nonlinear_arith)
                requires
                    2 * o <= 1 * st,
                    pow2(53) == 2 * pow2(52),
                    pow2(52) > 0,
            ;
            let error = sum.numerator() - exact;
            assert(error == o || error == -o);
            assert(error * pow2(53) == o * pow2(53) || error * pow2(53) == -(o * pow2(53)))
                by (nonlinear_arith)
                requires
                    error == o || error == -o,
            ;
        } else {
            assert(0 * pow2(53) == 0);
        }
    }

    /// A term added and taken away again leaves the other term, within the
    /// rounding of the two steps: the result misses it by the 2^53rd part of
    /// the sum and of itself, and by the least number, at most.
    pub proof fn lemma_add_then_sub(self, other: Scalar)
        requires
            self.is_finite_spec(),
            other.is_finite_spec(),
            self.add_spec(other).is_finite_spec(),
            self.add_spec(other).sub_spec(other).is_finite_spec(),
        ensures
            ({
                let sum = self.add_spec(other);
                let back = sum.sub_spec(other);
                let error = back.numerator() - self.numerator();
                let bound = sum.weight() + back.weight() + pow2(53);
                -bound <= error * pow2(53) <= bound
            }),
    {
        let sum = self.add_spec(other);
        let back = sum.sub_spec(other);
        self.lemma_add_error(other);
        sum.lemma_add_error(other.negated());
        lemma_pow2_top();
        let e1 = sum.numerator() - (self.numerator() + other.numerator());
        let e2 = back.numerator() - (sum.numerator() + other.negated().numerator());
        assert(other.negated().numerator() == -other.numerator());
        assert(back.numerator() - self.numerator() == e1 + e2);
        assert((e1 + e2) * pow2(53) == e1 * pow2(53) + e2 * pow2(53)) by (nonlinear_arith);
    }
}

} // verus!

//! Scalars from integers and back. Every conversion here is exact or cuts
//! off towards zero; none rounds.

use vstd::prelude::*;
use vstd::arithmetic::power2::pow2;
use vstd::arithmetic::power2::lemma_pow2_pos;
use vstd::arithmetic::power2::lemma_pow2_adds;
use vstd::arithmetic::power2::lemma_pow2_unfold;
use vstd::arithmetic::power2::lemma2_to64;
use vstd::arithmetic::power2::lemma2_to64_rest;
use core::ops::Neg;
use crate::round::pow2_u128;
use crate::scalar::weight_of;
use crate::scalar::Scalar;
use crate::scalar::HIDDEN_BIT;
use crate::scalar::ONE_BITS;

verus! {

/// The bit pattern of 255.
pub const BYTE_MAX_BITS: u64 = 0x406f_e000_0000_0000;

/// The number `k * 2^(e - 1) / 2^1074`, for a `k` of 53 bits at most and an
/// `e` at which its leading bit stays within the normal numbers. Nothing is
/// rounded.
pub(crate) fn scaled(k: u64, e: u64) -> (s: Scalar)
    requires
        k < 2 * HIDDEN_BIT,
        53 <= e <= 2046,
    ensures
        !s.is_sign_negative_spec(),
        s.is_finite_spec(),
        s.numerator() == k * pow2((e - 1) as nat),
        k > 0 ==> s.bits >= (e - 52) * HIDDEN_BIT,
        s.bits < (e + 1) * HIDDEN_BIT,
{
    if k == 0 {
        let s = Scalar { bits: 0 };
        proof {
            assert(0 * pow2((e - 1) as nat) == 0);
        }
        return s;
    }
    let mut m: u64 = k;
    let mut x: u64 = e;
    proof {
        lemma2_to64();
    }
    while m < HIDDEN_BIT
        invariant
            1 <= m < 2 * HIDDEN_BIT,
            e - 52 <= x <= e,
            53 <= e <= 2046,
            m * pow2((x - 1) as nat) == k * pow2((e - 1) as nat),
            m >= pow2((e - x) as nat),
        decreases x,
    {
        proof {
            lemma2_to64_rest();
            if x <= e - 52 {
                assert(false);
            }
            lemma_pow2_unfold((x - 1) as nat);
            lemma_pow2_unfold((e - x + 1) as nat);
            assert((2 * m) * pow2((x - 2) as nat) == m * pow2((x - 1) as nat)) by (nonlinear_arith)
                requires
                    pow2((x - 1) as nat) == 2 * pow2((x - 2) as nat),
            ;
        }
        m = 2 * m;
        x = x - 1;
    }
    let s = Scalar { bits: x * HIDDEN_BIT + (m - HIDDEN_BIT) };
    proof {
        assert(s.magnitude() == s.bits);
        assert(s.bits / HIDDEN_BIT == x);
        assert(s.bits % HIDDEN_BIT == m - HIDDEN_BIT);
    }
    s
}

impl Scalar {
    /// `self` is the whole number `k`, and not negative zero.
    pub open spec fn counts(self, k: nat) -> bool {
        !self.is_sign_negative_spec() && self.is_finite_spec() && self.numerator() == k * pow2(1074)
    }

    /// The number that a byte counts.
    pub open spec fn from_u8_spec(c: u8) -> Scalar {
        choose|s: Scalar| s.counts(c as nat)
    }

    /// One bit pattern at most counts a whole number.
    pub proof fn lemma_counts_once(self, other: Scalar, k: nat)
        requires
            self.counts(k),
            other.counts(k),
        ensures
            self == other,
    {
        self.lemma_order_by_bits(other);
    }

    /// The number that a byte counts. Nothing is rounded.
    #[verifier::when_used_as_spec(from_u8_spec)]
    pub fn from_u8(c: u8) -> (s: Scalar)
        ensures
            s.counts(c as nat),
            s == Scalar::from_u8_spec(c),
    {
        let s = scaled(c as u64, 1075);
        proof {
            s.lemma_counts_once(Scalar::from_u8_spec(c), c as nat);
        }
        s
    }

    /// The number that a whole number of 32 bits counts.
    pub open spec fn from_u32_spec(k: u32) -> Scalar {
        choose|s: Scalar| s.counts(k as nat)
    }

    /// The number that a whole number of 32 bits counts. Nothing is rounded.
    #[verifier::when_used_as_spec(from_u32_spec)]
    pub fn from_u32(k: u32) -> (s: Scalar)
        ensures
            s.counts(k as nat),
            s == Scalar::from_u32_spec(k),
    {
        let s = scaled(k as u64, 1075);
        proof {
            s.lemma_counts_once(Scalar::from_u32_spec(k), k as nat);
        }
        s
    }

    /// The number that an integer of 32 bits counts: the number of its
    /// absolute value, negated where the integer is negative.
    pub open spec fn from_i32_spec(k: i32) -> Scalar {
        if k < 0 {
            Scalar::from_u32_spec((-k) as u32).negated()
        } else {
            Scalar::from_u32_spec(k as u32)
        }
    }

    /// The number that an integer of 32 bits counts. Nothing is rounded.
    #[verifier::when_used_as_spec(from_i32_spec)]
    pub fn from_i32(k: i32) -> (s: Scalar)
        ensures
            s == Scalar::from_i32_spec(k),
    {
        if k < 0 {
            Scalar::from_u32((-(k as i64)) as u32).neg()
        } else {
            Scalar::from_u32(k as u32)
        }
    }

    /// The fraction `n / d`, rounded: the number that the decimal numeral of
    /// the fraction names, where it has one.
    pub open spec fn ratio_spec(n: u32, d: u32) -> Scalar {
        Scalar::from_u32_spec(n).div_spec(Scalar::from_u32_spec(d))
    }

    /// The fraction `n / d`, rounded.
    #[verifier::when_used_as_spec(ratio_spec)]
    pub fn ratio(n: u32, d: u32) -> (s: Scalar)
        ensures
            s == Scalar::ratio_spec(n, d),
    {
        Scalar::from_u32(n) / Scalar::from_u32(d)
    }

    /// The byte that a cast of the number gives: the number cut off towards
    /// zero, 0 for a NaN and for what is negative, 255 for what is 255 or
    /// more.
    pub open spec fn to_u8_spec(self) -> u8 {
        if self.is_nan_spec() || self.is_sign_negative_spec() {
            0
        } else if self.weight() >= 255 * pow2(1074) {
            255
        } else {
            (self.weight() / pow2(1074)) as u8
        }
    }

    pub fn to_u8(self) -> (c: u8)
        ensures
            c == self.to_u8_spec(),
    {
        if self.is_nan() || self.is_sign_negative() {
            return 0;
        }
        let a = self.bits;
        proof {
            lemma2_to64();
            lemma2_to64_rest();
            lemma_pow2_pos(1074);
            lemma_pow2_adds(52, 1022);
            lemma_pow2_adds(45, 1029);
            assert(ONE_BITS / HIDDEN_BIT == 1023 && ONE_BITS % HIDDEN_BIT == 0);
            assert(weight_of(ONE_BITS) == pow2(1074));
            assert(BYTE_MAX_BITS / HIDDEN_BIT == 1030);
            assert(BYTE_MAX_BITS % HIDDEN_BIT == 0xf_e000_0000_0000);
            assert(weight_of(BYTE_MAX_BITS) == 255 * pow2(1074)) by {
                assert((HIDDEN_BIT + 0xf_e000_0000_0000) * pow2(1029) == 255 * (pow2(45) * pow2(
                    1029,
                ))) by (nonlinear_arith)
                    requires
                        HIDDEN_BIT + 0xf_e000_0000_0000 == 255 * pow2(45),
                ;
            }
            self.lemma_order_by_bits(Scalar { bits: BYTE_MAX_BITS });
            self.lemma_order_by_bits(Scalar { bits: ONE_BITS });
            Scalar { bits: BYTE_MAX_BITS }.lemma_order_by_bits(self);
            Scalar { bits: ONE_BITS }.lemma_order_by_bits(self);
        }
        if a >= BYTE_MAX_BITS {
            return 255;
        }
        if a < ONE_BITS {
            proof {
                vstd::arithmetic::div_mod::lemma_basic_div(
                    self.weight() as int,
                    pow2(1074) as int,
                );
            }
            return 0;
        }
        let e = a / HIDDEN_BIT;
        let mant = HIDDEN_BIT + a % HIDDEN_BIT;
        proof {
            assert(1023 <= e <= 1030);
            crate::round::lemma_pow2_increases((1075 - e) as nat, 52);
            lemma_pow2_pos((1075 - e) as nat);
        }
        let div = pow2_u128(1075 - e) as u64;
        let c = mant / div;
        proof {
            let d = pow2((1075 - e) as nat) as int;
            let p = pow2((e - 1) as nat) as int;
            let w = self.weight() as int;
            lemma_pow2_pos((e - 1) as nat);
            lemma_pow2_adds((1075 - e) as nat, (e - 1) as nat);
            assert(w == mant * p);
            let r = mant % div;
            assert(mant == c * div + r) by {
                vstd::arithmetic::div_mod::lemma_fundamental_div_mod(mant as int, div as int);
                assert(div * c == c * div) by (nonlinear_arith);
            }
            assert(w == c * (d * p) + r * p) by (nonlinear_arith)
                requires
                    w == mant * p,
                    mant == c * d + r,
            ;
            assert(0 <= r * p < d * p) by (nonlinear_arith)
                requires
                    0 <= r < d,
                    p > 0,
            ;
            vstd::arithmetic::div_mod::lemma_fundamental_div_mod_converse(
                w,
                d * p,
                c as int,
                r * p,
            );
            assert(w < 255 * pow2(1074));
            assert(c < 255) by (nonlinear_arith)
                requires
                    w == c * (d * p) + r * p,
                    r * p >= 0,
                    w < 255 * (d * p),
                    d * p > 0,
            ;
        }
        c as u8
    }
}

} // verus!

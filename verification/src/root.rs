//! Square roots as IEEE-754 defines them: the exact root rounded to the
//! nearest number, ties to the even one.

use vstd::prelude::*;
use vstd::arithmetic::power2::pow2;
use vstd::arithmetic::power2::lemma_pow2_pos;
use vstd::arithmetic::power2::lemma_pow2_adds;
use vstd::arithmetic::power2::lemma_pow2_unfold;
use vstd::arithmetic::power2::lemma2_to64;
use vstd::arithmetic::power2::lemma2_to64_rest;
use crate::arith::nan;
use crate::arith::signed;
use crate::arith::split_normal;
use crate::arith::with_sign;
use crate::arith::NAN_BITS;
use crate::round::lemma_pow2_increases;
use crate::round::lemma_pow2_top;
use crate::round::lemma_step;
use crate::round::locate;
use crate::round::neg_part;
use crate::round::pos_part;
use crate::round::Side;
use crate::scalar::lemma_weight_increases;
use crate::scalar::weight_of;
use crate::scalar::Scalar;
use crate::scalar::HIDDEN_BIT;
use crate::scalar::INFINITY_BITS;

verus! {

/// `m` is the square root of `n / 2^2148` rounded, `n / 2^2148` being the
/// square of the root multiplied by two to the 1074th twice over. The root
/// lies between the two points half-way from `m` to its neighbours; where it
/// lies on one of them, `m` is even.
pub open spec fn nearest_even_root(m: u64, n: int) -> bool {
    let w = weight_of(m) as int;
    let below = weight_of((m - 1) as u64) as int;
    let above = weight_of((m + 1) as u64) as int;
    &&& m < INFINITY_BITS
    &&& m > 0 ==> (below + w) * (below + w) < 4 * n || ((below + w) * (below + w) == 4 * n && m % 2
        == 0)
    &&& 4 * n < (w + above) * (w + above) || ((w + above) * (w + above) == 4 * n && m % 2 == 0)
}

/// The bit pattern to which the square root of `n / 2^2148` is rounded.
pub open spec fn root_rounded(n: int) -> u64 {
    choose|m: u64| nearest_even_root(m, n)
}

/// A square root is rounded to one bit pattern and no other.
pub proof fn lemma_root_rounds_to_one(a: u64, b: u64, n: int)
    requires
        nearest_even_root(a, n),
        nearest_even_root(b, n),
    ensures
        a == b,
{
    if a != b {
        let (lo, hi) = if a < b {
            (a, b)
        } else {
            (b, a)
        };
        let u = (weight_of(lo) + weight_of((lo + 1) as u64)) as int;
        let v = (weight_of((hi - 1) as u64) + weight_of(hi)) as int;
        if lo + 1 < hi {
            lemma_weight_increases(lo, (hi - 1) as u64);
            lemma_weight_increases((lo + 1) as u64, hi);
        }
        assert(u <= v);
        assert(u * u <= v * v) by (nonlinear_arith)
            requires
                0 <= u <= v,
        ;
        if u < v {
            assert(u * u < v * v) by (nonlinear_arith)
                requires
                    0 <= u < v,
            ;
        }
    }
}

/// What is the rounded root of `n` is `root_rounded` of it.
pub proof fn lemma_root_rounded(m: u64, n: int)
    requires
        nearest_even_root(m, n),
    ensures
        m == root_rounded(n),
{
    lemma_root_rounds_to_one(m, root_rounded(n), n);
}

/// The integer square root.
pub(crate) fn isqrt(s: u128) -> (r: u128)
    requires
        s < pow2(112),
    ensures
        r * r <= s < (r + 1) * (r + 1),
        r < pow2(56),
{
    let mut r: u128 = 0;
    let mut b: u128 = 0x100_0000_0000_0000;
    proof {
        lemma2_to64();
        lemma2_to64_rest();
        lemma_pow2_adds(56, 56);
        assert(0x100_0000_0000_0000 * 0x100_0000_0000_0000 == pow2(112)) by (nonlinear_arith)
            requires
                pow2(56) == 0x100_0000_0000_0000,
                pow2(112) == pow2(56) * pow2(56),
        ;
    }
    while b > 1
        invariant
            1 <= b <= 0x100_0000_0000_0000,
            r + b <= 0x100_0000_0000_0000,
            r * r <= s < (r + b) * (r + b),
            b == 1 || b % 2 == 0,
            exists|i: nat| i <= 56 && b == pow2(i),
        decreases b,
    {
        let half: u128 = b / 2;
        let c: u128 = r + half;
        proof {
            let i = choose|i: nat| i <= 56 && b == pow2(i);
            lemma2_to64();
            if i == 0 {
                assert(false);
            }
            lemma_pow2_unfold(i);
            assert(half == pow2((i - 1) as nat));
            if i - 1 >= 1 {
                lemma_pow2_unfold((i - 1) as nat);
            }
            assert(c * c < 0x1_0000_0000_0000_0000_0000_0000_0000) by (nonlinear_arith)
                requires
                    c < 0x100_0000_0000_0000,
            ;
        }
        if c * c <= s {
            r = c;
        }
        b = half;
    }
    proof {
        lemma2_to64_rest();
    }
    r
}

impl Scalar {
    /// The square root as IEEE-754 defines it. A NaN and a negative number
    /// give a NaN. A zero of either sign and positive infinity give
    /// themselves.
    pub open spec fn sqrt_spec(self) -> Scalar {
        if self.is_nan_spec() {
            nan()
        } else if self.magnitude() == 0 {
            self
        } else if self.is_sign_negative_spec() {
            nan()
        } else if self.is_infinite_spec() {
            self
        } else {
            signed(root_rounded((self.weight() * pow2(1074)) as int), false)
        }
    }

    pub fn sqrt(self) -> (r: Scalar)
        ensures
            r == self.sqrt_spec(),
    {
        if self.is_nan() {
            return Scalar { bits: NAN_BITS };
        }
        let a = self.abs().bits;
        if a == 0 {
            return self;
        }
        if self.is_sign_negative() {
            return Scalar { bits: NAN_BITS };
        }
        if a == INFINITY_BITS {
            return self;
        }
        let (mant, t) = split_normal(a);
        let e2: i64 = t + 1022;
        let (m2, even): (u64, i64) = if e2 % 2 == 1 {
            (2 * mant, e2 - 1)
        } else {
            (mant, e2)
        };
        let q: i64 = even / 2 - 29;
        proof {
            lemma_pow2_top();
            lemma2_to64();
            lemma2_to64_rest();
            lemma_pow2_adds(54, 58);
            lemma_pow2_adds(52, 58);
            assert((m2 as u128) * 0x400_0000_0000_0000 < pow2(112)) by (nonlinear_arith)
                requires
                    m2 < 0x40_0000_0000_0000,
                    pow2(112) == 0x40_0000_0000_0000 * 0x400_0000_0000_0000,
            ;
        }
        let s: u128 = (m2 as u128) * 0x400_0000_0000_0000;
        let root = isqrt(s);
        let exact = root * root == s;
        let ghost n: int = (weight_of(a) * pow2(1074)) as int;
        let ghost c: int = pow2(q as nat) as int;
        let ghost x: int = root * c;
        proof {
            lemma_pow2_pos(q as nat);
            // n == s * c * c
            lemma_pow2_adds(q as nat, q as nat);
            lemma_pow2_adds(58, (2 * q) as nat);
            lemma_pow2_adds(t as nat, 1074);
            lemma_pow2_adds(52, even as nat);
            lemma_pow2_adds(52, e2 as nat);
            lemma_pow2_pos(52);
            if e2 % 2 == 1 {
                lemma_pow2_unfold(e2 as nat);
            }
            assert(m2 * pow2(even as nat) == mant * pow2(e2 as nat)) by (nonlinear_arith)
                requires
                    e2 % 2 == 1 ==> m2 == 2 * mant && pow2(e2 as nat) == 2 * pow2(even as nat),
                    e2 % 2 != 1 ==> m2 == mant && even == e2,
            ;
            lemma_root_scale(
                weight_of(a) as int,
                mant as int,
                m2 as int,
                pow2(52) as int,
                pow2(t as nat) as int,
                pow2(1074) as int,
                pow2(e2 as nat) as int,
                pow2(even as nat) as int,
                c,
                s as int,
                n,
            );
            assert(n == s * (c * c));
            // root >= 2^55
            assert(root >= pow2(53)) by (nonlinear_arith)
                requires
                    s < (root + 1) * (root + 1),
                    s >= 0x10_0000_0000_0000 * 0x400_0000_0000_0000,
                    pow2(53) == 0x20_0000_0000_0000,
            ;
            assert(pos_part(q as int) == q && neg_part(q as int) == 0);
            assert(pow2(0) == 1);
            // x * x <= n < (x + c) * (x + c)
            assert(x * x <= n && n < (x + c) * (x + c) && (exact == (x * x == n)))
                by (nonlinear_arith)
                requires
                    x == root * c,
                    n == s * (c * c),
                    root * root <= s < (root + 1) * (root + 1),
                    exact == (root * root == s),
                    c > 0,
            ;
            // x < 2^2097: never near infinity
            lemma_pow2_increases((q + 56) as nat, 2000);
            lemma_pow2_adds(56, q as nat);
            assert(x + c <= pow2(2000)) by (nonlinear_arith)
                requires
                    x == root * c,
                    root < pow2(56),
                    pow2(56) * c <= pow2(2000),
                    c > 0,
            ;
        }
        let loc = locate(root, q);
        proof {
            lemma_pow2_increases(2000, 2097);
            lemma_pow2_adds(52, 2045);
            let top = (INFINITY_BITS - 1) as u64;
            assert(top / HIDDEN_BIT == 2046);
            lemma_pow2_pos(2045);
            assert(weight_of(top) >= pow2(52) * pow2(2045)) by (nonlinear_arith)
                requires
                    weight_of(top) == (HIDDEN_BIT + top % HIDDEN_BIT) * pow2(2045),
                    pow2(52) == HIDDEN_BIT,
                    pow2(2045) > 0,
            ;
            lemma_weight_increases(top, INFINITY_BITS);
            if loc.floor >= top {
                if loc.floor > top {
                    lemma_weight_increases(top, loc.floor);
                }
                assert(false);
            }
            lemma_step(loc.floor);
            lemma_step((loc.floor + 1) as u64);
            if loc.floor > 0 {
                lemma_weight_increases((loc.floor - 1) as u64, loc.floor);
            }
        }
        let up: bool = match loc.side {
            Side::Over => false,
            Side::Exact => false,
            Side::Below => false,
            Side::Half => !exact || loc.floor % 2 == 1,
            Side::Above => true,
        };
        let m: u64 = if up {
            loc.floor + 1
        } else {
            loc.floor
        };
        proof {
            let w0 = weight_of(loc.floor) as int;
            let w1 = weight_of((loc.floor + 1) as u64) as int;
            let w2 = weight_of((loc.floor + 2) as u64) as int;
            let wm = if loc.floor > 0 {
                weight_of((loc.floor - 1) as u64) as int
            } else {
                0
            };
            assert(1 * w0 == w0 && 1 * w1 == w1 && 1 * (w0 + w1) == w0 + w1);
            lemma_root_side(n, x, c, w0, w1, w2, wm, up, exact, loc.floor % 2 == 0);
            lemma_root_rounded(m, n);
        }
        with_sign(m, false)
    }
}

/// The radicand written with the shifted significand: `n == s * c^2`.
proof fn lemma_root_scale(
    w: int,
    mant: int,
    m2: int,
    p52: int,
    pt: int,
    z: int,
    pe2: int,
    peven: int,
    c: int,
    s: int,
    n: int,
)
    requires
        p52 > 0,
        w * p52 == mant * pt,
        pt * z == p52 * pe2,
        m2 * peven == mant * pe2,
        s == m2 * 0x400_0000_0000_0000,
        0x400_0000_0000_0000 * (c * c) == peven,
        n == w * z,
    ensures
        n == s * (c * c),
{
    assert((w * z) * p52 == mant * (p52 * pe2)) by (nonlinear_arith)
        requires
            w * p52 == mant * pt,
            pt * z == p52 * pe2,
    ;
    assert((s * (c * c)) == m2 * peven) by (nonlinear_arith)
        requires
            s == m2 * 0x400_0000_0000_0000,
            0x400_0000_0000_0000 * (c * c) == peven,
    ;
    let y = s * (c * c);
    assert(n * p52 == y * p52) by (nonlinear_arith)
        requires
            n == w * z,
            (w * z) * p52 == mant * (p52 * pe2),
            y == mant * pe2,
    ;
    assert(n == y) by (nonlinear_arith)
        requires
            n * p52 == y * p52,
            p52 > 0,
    ;
}

/// From where the shifted root lies among the bit patterns to the rounded
/// root.
proof fn lemma_root_side(
    n: int,
    x: int,
    c: int,
    w0: int,
    w1: int,
    w2: int,
    wm: int,
    up: bool,
    exact: bool,
    even: bool,
)
    requires
        c > 0,
        0 <= x,
        x * x <= n < (x + c) * (x + c),
        exact == (x * x == n),
        0 <= wm <= w0 < w1 < w2,
        wm < w0 || w0 == 0,
        w0 <= x,
        x + c <= w1,
        !up ==> 2 * (x + c) <= w0 + w1 || (2 * x == w0 + w1 && exact && even),
        up ==> 2 * x > w0 + w1 || (2 * x == w0 + w1 && (!exact || !even)),
    ensures
        !up ==> (w0 > 0 ==> (wm + w0) * (wm + w0) < 4 * n) && (4 * n < (w0 + w1) * (w0 + w1) || ((w0
            + w1) * (w0 + w1) == 4 * n && even)),
        up ==> ((w0 + w1) * (w0 + w1) < 4 * n || ((w0 + w1) * (w0 + w1) == 4 * n && !even)) && 4
            * n < (w1 + w2) * (w1 + w2),
{
    let h = w0 + w1;
    if !up {
        if w0 > 0 {
            assert((wm + w0) * (wm + w0) < 4 * n) by (nonlinear_arith)
                requires
                    0 <= wm < w0,
                    w0 <= x,
                    x * x <= n,
            ;
        }
        if 2 * (x + c) <= h {
            assert(4 * n < h * h) by (nonlinear_arith)
                requires
                    n < (x + c) * (x + c),
                    0 <= 2 * (x + c) <= h,
            ;
        } else {
            assert(h * h == 4 * n) by (nonlinear_arith)
                requires
                    2 * x == h,
                    x * x == n,
            ;
        }
    } else {
        assert(4 * n < (w1 + w2) * (w1 + w2)) by (nonlinear_arith)
            requires
                n < (x + c) * (x + c),
                0 <= x + c <= w1,
                w1 < w2,
        ;
        if 2 * x > h {
            assert(h * h < 4 * n) by (nonlinear_arith)
                requires
                    0 <= h < 2 * x,
                    x * x <= n,
            ;
        } else if !exact {
            assert(h * h < 4 * n) by (nonlinear_arith)
                requires
                    h == 2 * x,
                    x * x < n,
            ;
        } else {
            assert(h * h == 4 * n) by (nonlinear_arith)
                requires
                    h == 2 * x,
                    x * x == n,
            ;
        }
    }
}

/// The last bit pattern at or below `m` whose square does not lie above `n`.
pub open spec fn root_floor_from(m: u64, n: int) -> u64
    decreases m,
{
    if weight_of(m) * weight_of(m) <= n || m == 0 {
        m
    } else {
        root_floor_from((m - 1) as u64, n)
    }
}

/// What `root_floor_from` finds has a square at or below `n`, and the next
/// bit pattern, where it is not beyond `m`, has a square above it.
pub proof fn lemma_root_floor_from(m: u64, n: int)
    requires
        n >= 0,
    ensures
        root_floor_from(m, n) <= m,
        weight_of(root_floor_from(m, n)) * weight_of(root_floor_from(m, n)) <= n,
        root_floor_from(m, n) < m ==> n < weight_of((root_floor_from(m, n) + 1) as u64)
            * weight_of((root_floor_from(m, n) + 1) as u64),
    decreases m,
{
    assert(weight_of(0) == 0);
    assert(0 * 0 == 0);
    if !(weight_of(m) * weight_of(m) <= n || m == 0) {
        lemma_root_floor_from((m - 1) as u64, n);
    }
}

/// The square root of every finite number that is positive is rounded to
/// some bit pattern.
pub proof fn lemma_root_rounds_to_some(a: u64) -> (m: u64)
    requires
        0 < a < INFINITY_BITS,
    ensures
        nearest_even_root(m, (weight_of(a) * pow2(1074)) as int),
{
    let w = weight_of(a) as int;
    let n = w * pow2(1074);
    let top = (INFINITY_BITS - 1) as u64;
    lemma_weight_increases(0, a);
    assert(weight_of(0) == 0);
    if a < top {
        lemma_weight_increases(a, top);
    }
    vstd::arithmetic::power2::lemma_pow2_strictly_increases(1074, 2097);
    lemma_pow2_top();
    lemma_pow2_pos(1074);
    lemma_pow2_pos(2045);
    lemma_pow2_adds(52, 2045);
    lemma_pow2_increases(1074, 2097);
    assert(top / HIDDEN_BIT == 2046);
    assert(weight_of(top) >= pow2(52) * pow2(2045)) by (nonlinear_arith)
        requires
            weight_of(top) == (HIDDEN_BIT + top % HIDDEN_BIT) * pow2(2045),
            pow2(52) == HIDDEN_BIT,
            pow2(2045) > 0,
    ;
    lemma_step(top);
    let wt = weight_of(top) as int;
    assert(w <= wt);
    assert(n > 0 && n < wt * wt) by (nonlinear_arith)
        requires
            n == w * pow2(1074),
            0 < w <= wt,
            0 < pow2(1074) < wt,
    ;
    let f = root_floor_from(top, n);
    lemma_root_floor_from(top, n);
    assert(f < top);
    lemma_step(f);
    lemma_step((f + 1) as u64);
    let w0 = weight_of(f) as int;
    let w1 = weight_of((f + 1) as u64) as int;
    let w2 = weight_of((f + 2) as u64) as int;
    let h = w0 + w1;
    let up = 4 * n > h * h || (4 * n == h * h && f % 2 == 1);
    if up {
        assert(4 * n < (w1 + w2) * (w1 + w2)) by (nonlinear_arith)
            requires
                n < w1 * w1,
                0 <= w1 < w2,
        ;
        (f + 1) as u64
    } else {
        if f > 0 {
            lemma_weight_increases((f - 1) as u64, f);
            let wm = weight_of((f - 1) as u64) as int;
            assert((wm + w0) * (wm + w0) < 4 * n) by (nonlinear_arith)
                requires
                    0 <= wm < w0,
                    w0 * w0 <= n,
            ;
        }
        f
    }
}

impl Scalar {
    /// A square root is a NaN or not negative.
    pub proof fn lemma_sqrt_not_negative(self)
        ensures
            self.sqrt_spec().is_nan_spec() || self.sqrt_spec().numerator() >= 0,
    {
        assert(weight_of(0) == 0);
        assert(nan().is_nan_spec());
        if !self.is_nan_spec() && self.magnitude() != 0 && !self.is_sign_negative_spec()
            && !self.is_infinite_spec() {
            self.lemma_order_by_bits(Scalar::zero());
            self.lemma_order_by_bits(Scalar { bits: INFINITY_BITS });
            let m = lemma_root_rounds_to_some(self.magnitude());
            lemma_root_rounded(m, (self.weight() * pow2(1074)) as int);
        }
    }
}

} // verus!

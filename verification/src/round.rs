//! Rounding: the number nearest to a fraction, and of two that are equally
//! near, the one whose bit pattern is even.

use vstd::prelude::*;
use vstd::arithmetic::power2::pow2;
use vstd::arithmetic::power2::lemma_pow2_pos;
use vstd::arithmetic::power2::lemma_pow2_unfold;
use vstd::arithmetic::power2::lemma_pow2_adds;
use vstd::arithmetic::power2::lemma_pow2_strictly_increases;
use vstd::arithmetic::power2::lemma2_to64;
use vstd::arithmetic::power2::lemma2_to64_rest;
use crate::scalar::lemma_weight_increases;
use crate::scalar::weight_of;
use crate::scalar::HIDDEN_BIT;
use crate::scalar::INFINITY_BITS;

verus! {

/// How far the absolute value of the bit pattern `d` lies from the fraction
/// `num / den / 2^1074`, multiplied by `den` and by two to the 1074th.
pub open spec fn off(d: u64, num: int, den: int) -> int {
    let x = den * weight_of(d) - num;
    if x < 0 {
        -x
    } else {
        x
    }
}

/// `m` is the fraction `num / den / 2^1074` rounded as IEEE-754 rounds by
/// default. Among the bit patterns from zero to infinity, infinity counted as
/// two to the 1024th, none lies nearer to the fraction than `m`, and where
/// another lies as near, `m` is the even one of the two. A fraction beyond the
/// largest number by half a step or more is rounded to infinity by this.
pub open spec fn nearest_even(m: u64, num: int, den: int) -> bool {
    &&& m <= INFINITY_BITS
    &&& forall|d: u64| d <= INFINITY_BITS ==> off(m, num, den) <= #[trigger] off(d, num, den)
    &&& forall|d: u64|
        d <= INFINITY_BITS && d != m && #[trigger] off(d, num, den) == off(m, num, den) ==> m % 2
            == 0
}

/// The step from a bit pattern to the next: one step of its exponent.
pub open spec fn step_of(m: u64) -> nat {
    if m < HIDDEN_BIT {
        1
    } else {
        pow2((m / HIDDEN_BIT - 1) as nat)
    }
}

/// From a bit pattern to the next one up is one step of its exponent.
pub proof fn lemma_step(m: u64)
    requires
        m < u64::MAX,
    ensures
        weight_of((m + 1) as u64) == weight_of(m) + step_of(m),
        step_of(m) > 0,
{
    let e = (m / HIDDEN_BIT) as nat;
    let f = (m % HIDDEN_BIT) as nat;
    vstd::arithmetic::power2::lemma2_to64();
    if e == 0 {
        if f + 1 < HIDDEN_BIT {
            assert((m + 1) / (HIDDEN_BIT as int) == 0);
            assert((m + 1) % (HIDDEN_BIT as int) == f + 1);
        } else {
            assert((m + 1) / (HIDDEN_BIT as int) == 1);
            assert((m + 1) % (HIDDEN_BIT as int) == 0);
            assert(HIDDEN_BIT * pow2(0) == HIDDEN_BIT);
        }
    } else {
        let p = pow2((e - 1) as nat);
        lemma_pow2_pos((e - 1) as nat);
        assert((HIDDEN_BIT + f + 1) * p == (HIDDEN_BIT + f) * p + p) by (nonlinear_arith);
        if f + 1 < HIDDEN_BIT {
            assert((m + 1) / (HIDDEN_BIT as int) == e);
            assert((m + 1) % (HIDDEN_BIT as int) == f + 1);
        } else {
            assert((m + 1) / (HIDDEN_BIT as int) == e + 1);
            assert((m + 1) % (HIDDEN_BIT as int) == 0);
            lemma_pow2_unfold(e);
            assert(HIDDEN_BIT * (2 * p) == (HIDDEN_BIT + f + 1) * p) by (nonlinear_arith)
                requires
                    f + 1 == HIDDEN_BIT,
            ;
        }
    }
}

/// A fraction that lies between two neighbouring bit patterns is rounded to
/// the nearer of the two, and to the even one where it lies half-way.
pub proof fn lemma_bracket(m: u64, num: int, den: int, up: bool)
    requires
        m < INFINITY_BITS,
        den > 0,
        den * weight_of(m) <= num <= den * weight_of((m + 1) as u64),
        up ==> {
            let lo = num - den * weight_of(m);
            let hi = den * weight_of((m + 1) as u64) - num;
            hi < lo || (hi == lo && m % 2 == 1)
        },
        !up ==> {
            let lo = num - den * weight_of(m);
            let hi = den * weight_of((m + 1) as u64) - num;
            lo < hi || (hi == lo && m % 2 == 0)
        },
    ensures
        nearest_even(
            if up {
                (m + 1) as u64
            } else {
                m
            },
            num,
            den,
        ),
{
    let n = (m + 1) as u64;
    let r = if up {
        n
    } else {
        m
    };
    let lo = num - den * weight_of(m);
    let hi = den * weight_of(n) - num;
    lemma_weight_increases(m, n);
    assert(den * weight_of(m) < den * weight_of(n)) by (nonlinear_arith)
        requires
            den > 0,
            weight_of(m) < weight_of(n),
    ;
    assert forall|d: u64| d <= INFINITY_BITS implies off(r, num, den) <= #[trigger] off(
        d,
        num,
        den,
    ) && (d != r && off(d, num, den) == off(r, num, den) ==> r % 2 == 0) by {
        if d < m {
            lemma_weight_increases(d, m);
            assert(den * weight_of(d) < den * weight_of(m)) by (nonlinear_arith)
                requires
                    den > 0,
                    weight_of(d) < weight_of(m),
            ;
        } else if d > n {
            lemma_weight_increases(n, d);
            assert(den * weight_of(d) > den * weight_of(n)) by (nonlinear_arith)
                requires
                    den > 0,
                    weight_of(d) > weight_of(n),
            ;
        }
    }
}

/// A fraction at or beyond two to the 1024th is rounded to infinity.
pub proof fn lemma_overflow(num: int, den: int)
    requires
        den > 0,
        num >= den * weight_of(INFINITY_BITS),
    ensures
        nearest_even(INFINITY_BITS, num, den),
{
    assert forall|d: u64| d <= INFINITY_BITS implies off(INFINITY_BITS, num, den) <= #[trigger] off(
        d,
        num,
        den,
    ) && (d != INFINITY_BITS ==> off(d, num, den) != off(INFINITY_BITS, num, den)) by {
        if d < INFINITY_BITS {
            lemma_weight_increases(d, INFINITY_BITS);
            assert(den * weight_of(d) < den * weight_of(INFINITY_BITS)) by (nonlinear_arith)
                requires
                    den > 0,
                    weight_of(d) < weight_of(INFINITY_BITS),
            ;
        }
    }
}

/// Rounding goes by the value of a fraction, not by how it is written.
pub proof fn lemma_same_fraction(m: u64, n1: int, d1: int, n2: int, d2: int)
    requires
        nearest_even(m, n1, d1),
        d1 > 0,
        d2 > 0,
        n1 * d2 == n2 * d1,
    ensures
        nearest_even(m, n2, d2),
{
    assert forall|d: u64| d1 * #[trigger] off(d, n2, d2) == d2 * off(d, n1, d1) by {
        let w = weight_of(d) as int;
        assert(d1 * (d2 * w - n2) == d2 * (d1 * w - n1)) by (nonlinear_arith)
            requires
                n1 * d2 == n2 * d1,
        ;
        let a = d2 * w - n2;
        let b = d1 * w - n1;
        assert(d1 * (-a) == -(d1 * a)) by (nonlinear_arith);
        assert(d2 * (-b) == -(d2 * b)) by (nonlinear_arith);
        assert((a < 0) == (b < 0)) by (nonlinear_arith)
            requires
                d1 * a == d2 * b,
                d1 > 0,
                d2 > 0,
        ;
    }
    assert forall|d: u64| d <= INFINITY_BITS implies off(m, n2, d2) <= #[trigger] off(d, n2, d2)
        && (d != m && off(d, n2, d2) == off(m, n2, d2) ==> m % 2 == 0) by {
        let a = off(m, n2, d2);
        let b = off(d, n2, d2);
        let a1 = off(m, n1, d1);
        let b1 = off(d, n1, d1);
        assert(a1 <= b1);
        assert(d1 * a == d2 * a1);
        assert(d1 * b == d2 * b1);
        assert(a <= b) by (nonlinear_arith)
            requires
                d1 * a == d2 * a1,
                d1 * b == d2 * b1,
                a1 <= b1,
                d1 > 0,
                d2 > 0,
        ;
        if a == b {
            assert(a1 == b1) by (nonlinear_arith)
                requires
                    d1 * a == d2 * a1,
                    d1 * b == d2 * b1,
                    a == b,
                    d2 > 0,
            ;
        }
    }
}

/// A fraction is rounded to one bit pattern and no other.
pub proof fn lemma_rounds_to_one(a: u64, b: u64, num: int, den: int)
    requires
        nearest_even(a, num, den),
        nearest_even(b, num, den),
        den > 0,
    ensures
        a == b,
{
    if a != b {
        let (lo, hi) = if a < b {
            (a, b)
        } else {
            (b, a)
        };
        assert(off(a, num, den) == off(b, num, den));
        assert(a % 2 == 0 && b % 2 == 0);
        let mid = (lo + 1) as u64;
        assert(mid < hi);
        lemma_weight_increases(lo, mid);
        lemma_weight_increases(mid, hi);
        assert(den * weight_of(lo) < den * weight_of(mid) < den * weight_of(hi))
            by (nonlinear_arith)
            requires
                den > 0,
                weight_of(lo) < weight_of(mid) < weight_of(hi),
        ;
        assert(off(lo, num, den) <= off(mid, num, den));
        assert(off(hi, num, den) <= off(mid, num, den));
    }
}

/// The last bit pattern at or below `m` that does not lie above the fraction
/// `num / den / 2^1074`.
pub open spec fn floor_from(m: u64, num: int, den: int) -> u64
    decreases m,
{
    if den * weight_of(m) <= num || m == 0 {
        m
    } else {
        floor_from((m - 1) as u64, num, den)
    }
}

/// What `floor_from` finds lies at or below the fraction, and the next bit
/// pattern, where it is not beyond `m`, lies above it.
pub proof fn lemma_floor_from(m: u64, num: int, den: int)
    requires
        num >= 0,
        den > 0,
    ensures
        floor_from(m, num, den) <= m,
        den * weight_of(floor_from(m, num, den)) <= num,
        floor_from(m, num, den) < m ==> num < den * weight_of(
            (floor_from(m, num, den) + 1) as u64,
        ),
    decreases m,
{
    assert(weight_of(0) == 0);
    assert(den * 0 == 0);
    if !(den * weight_of(m) <= num || m == 0) {
        lemma_floor_from((m - 1) as u64, num, den);
    }
}

/// Every fraction that is not negative is rounded to some bit pattern.
pub proof fn lemma_rounds_to_some(num: int, den: int) -> (m: u64)
    requires
        num >= 0,
        den > 0,
    ensures
        nearest_even(m, num, den),
{
    if num >= den * weight_of(INFINITY_BITS) {
        lemma_overflow(num, den);
        INFINITY_BITS
    } else {
        let f = floor_from(INFINITY_BITS, num, den);
        lemma_floor_from(INFINITY_BITS, num, den);
        let lo = num - den * weight_of(f);
        let hi = den * weight_of((f + 1) as u64) - num;
        let up = hi < lo || (hi == lo && f % 2 == 1);
        lemma_bracket(f, num, den, up);
        if up {
            (f + 1) as u64
        } else {
            f
        }
    }
}

/// The steps between bit patterns do not shrink as the patterns grow.
pub proof fn lemma_step_increases(a: u64, b: u64)
    requires
        a <= b,
    ensures
        step_of(a) <= step_of(b),
{
    lemma2_to64();
    if a >= HIDDEN_BIT {
        lemma_pow2_increases((a / HIDDEN_BIT - 1) as nat, (b / HIDDEN_BIT - 1) as nat);
    } else if b >= HIDDEN_BIT {
        lemma_pow2_pos((b / HIDDEN_BIT - 1) as nat);
    }
}

/// A finite number to which a fraction is rounded lies within half a step of
/// the fraction.
pub proof fn lemma_half_step(m: u64, num: int, den: int)
    requires
        nearest_even(m, num, den),
        m < INFINITY_BITS,
        num >= 0,
        den > 0,
    ensures
        2 * off(m, num, den) <= den * step_of(m),
{
    let w = weight_of(m) as int;
    if den * w <= num {
        let up = (m + 1) as u64;
        lemma_step(m);
        assert(off(m, num, den) <= off(up, num, den));
        let st = step_of(m) as int;
        let w1 = weight_of(up) as int;
        assert(w1 == w + st);
        assert(den * w1 == den * w + den * st) by (nonlinear_arith)
            requires
                w1 == w + st,
        ;
        assert(den * st > 0) by (nonlinear_arith)
            requires
                den > 0,
                st > 0,
        ;
        assert(off(m, num, den) == num - den * w);
        if num > den * w1 {
            assert(off(up, num, den) == num - den * w1);
            assert(false);
        }
        assert(off(up, num, den) == den * w1 - num);
    } else {
        assert(weight_of(0) == 0);
        assert(den * 0 == 0);
        assert(m > 0);
        let down = (m - 1) as u64;
        lemma_step(down);
        lemma_step_increases(down, m);
        let wd = weight_of(down) as int;
        let sd = step_of(down) as int;
        let st = step_of(m) as int;
        assert(off(m, num, den) <= off(down, num, den));
        assert(w == wd + sd);
        assert(den * w == den * wd + den * sd) by (nonlinear_arith)
            requires
                w == wd + sd,
        ;
        assert(den * sd <= den * st && den * sd > 0) by (nonlinear_arith)
            requires
                den > 0,
                0 < sd <= st,
        ;
        assert(off(m, num, den) == den * w - num);
        if num < den * wd {
            assert(off(down, num, den) == den * wd - num);
            assert(false);
        }
        assert(off(down, num, den) == num - den * wd);
    }
}

/// A step is the 2^52nd part of its number at most, and one among the
/// subnormal numbers.
pub proof fn lemma_step_is_small(m: u64)
    requires
        m < INFINITY_BITS,
    ensures
        step_of(m) * pow2(52) <= weight_of(m) + pow2(52),
{
    lemma_pow2_top();
    if m >= HIDDEN_BIT {
        let p = pow2((m / HIDDEN_BIT - 1) as nat);
        let f = m % HIDDEN_BIT;
        assert((HIDDEN_BIT + f) * p >= p * HIDDEN_BIT) by (nonlinear_arith)
            requires
                f >= 0,
                p >= 0,
        ;
    } else {
        assert(1 * pow2(52) == pow2(52));
    }
}

/// Powers of two do not decrease with their exponent.
pub proof fn lemma_pow2_increases(a: nat, b: nat)
    requires
        a <= b,
    ensures
        pow2(a) <= pow2(b),
{
    if a < b {
        lemma_pow2_strictly_increases(a, b);
    }
}

/// The bit pattern with the exponent step `u` and the significand `mant`
/// stands for `mant * 2^u`.
pub proof fn lemma_weight_of_parts(u: nat, mant: nat)
    requires
        u <= 2045,
        mant < 2 * HIDDEN_BIT,
        u > 0 ==> mant >= HIDDEN_BIT,
    ensures
        u * HIDDEN_BIT + mant < INFINITY_BITS,
        weight_of((u * HIDDEN_BIT + mant) as u64) == mant * pow2(u),
        step_of((u * HIDDEN_BIT + mant) as u64) == pow2(u),
{
    lemma2_to64();
    let m = (u * HIDDEN_BIT + mant) as u64;
    if mant >= HIDDEN_BIT {
        assert(m / HIDDEN_BIT == u + 1);
        assert(m % HIDDEN_BIT == mant - HIDDEN_BIT);
    } else {
        assert(m / HIDDEN_BIT == 0);
        assert(m % HIDDEN_BIT == mant);
        assert(mant * pow2(0) == mant);
    }
}

/// Two to the `k`th.
pub(crate) fn pow2_u128(k: u64) -> (p: u128)
    requires
        k <= 126,
    ensures
        p == pow2(k as nat),
        p >= 1,
{
    let mut p: u128 = 1;
    let mut i: u64 = 0;
    proof {
        lemma2_to64();
        lemma_pow2_top();
    }
    while i < k
        invariant
            i <= k <= 126,
            p == pow2(i as nat),
            p >= 1,
            p <= pow2(126),
        decreases k - i,
    {
        proof {
            lemma_pow2_unfold((i + 1) as nat);
            lemma_pow2_increases((i + 1) as nat, 126);
            lemma_pow2_top();
        }
        p = 2 * p;
        i = i + 1;
    }
    p
}

/// The powers of two at which the widths of this module end.
pub proof fn lemma_pow2_top()
    ensures
        pow2(52) == 0x10_0000_0000_0000,
        pow2(53) == 0x20_0000_0000_0000,
        pow2(66) == 0x4_0000_0000_0000_0000,
        pow2(119) == 0x80_0000_0000_0000_0000_0000_0000_0000,
        pow2(120) == 0x100_0000_0000_0000_0000_0000_0000_0000,
        pow2(126) == 0x4000_0000_0000_0000_0000_0000_0000_0000,
        pow2(127) == 0x8000_0000_0000_0000_0000_0000_0000_0000,
{
    lemma2_to64();
    lemma2_to64_rest();
    lemma_pow2_adds(60, 60);
    lemma_pow2_adds(64, 2);
    lemma_pow2_adds(60, 59);
    lemma_pow2_adds(63, 63);
    lemma_pow2_adds(63, 64);
}

/// Where an integer multiple of a power of two lies among the bit patterns.
#[derive(Clone, Copy, Debug)]
pub enum Side {
    /// At or beyond infinity.
    Over,
    /// On the bit pattern `floor`.
    Exact,
    /// Above `floor`, below the point half-way to the next bit pattern.
    Below,
    /// Half-way between `floor` and the next bit pattern.
    Half,
    /// Beyond the half-way point, below the next bit pattern.
    Above,
}

/// The last bit pattern that does not lie above a value, and where the value
/// lies from there.
#[derive(Clone, Copy, Debug)]
pub struct Located {
    pub floor: u64,
    pub side: Side,
}

/// The positive part of an exponent.
pub open spec fn pos_part(q: int) -> nat {
    if q > 0 {
        q as nat
    } else {
        0
    }
}

/// The negative part of an exponent, as a natural number.
pub open spec fn neg_part(q: int) -> nat {
    if q < 0 {
        (-q) as nat
    } else {
        0
    }
}

/// What `locate` finds of `sig * 2^q / 2^1074`. With `a = sig * 2^max(q, 0)`,
/// `b = 2^max(-q, 0)` and `c = 2^max(q, 0)`, the value is `a / b`, and the
/// next value that `sig + 1` would give is `(a + c) / b`.
pub open spec fn located(loc: Located, sig: u128, q: int) -> bool {
    let a = sig * pow2(pos_part(q));
    let b = pow2(neg_part(q)) as int;
    let c = pow2(pos_part(q)) as int;
    let w0 = weight_of(loc.floor) as int;
    let w1 = weight_of((loc.floor + 1) as u64) as int;
    match loc.side {
        Side::Over => loc.floor == INFINITY_BITS && a >= b * w0,
        Side::Exact => loc.floor < INFINITY_BITS && a == b * w0 && (sig >= pow2(53) ==> 2 * (a + c)
            <= b * (w0 + w1)),
        Side::Below => loc.floor < INFINITY_BITS && b * w0 < a && 2 * a < b * (w0 + w1) && (sig
            >= pow2(53) ==> 2 * (a + c) <= b * (w0 + w1)),
        Side::Half => loc.floor < INFINITY_BITS && 2 * a == b * (w0 + w1) && (sig >= pow2(53)
            ==> a + c <= b * w1),
        Side::Above => loc.floor < INFINITY_BITS && 2 * a > b * (w0 + w1) && a < b * w1 && (sig
            >= pow2(53) ==> a + c <= b * w1),
    }
}

/// Finds `sig * 2^q / 2^1074` among the bit patterns.
pub(crate) fn locate(sig: u128, q: i64) -> (loc: Located)
    requires
        sig < pow2(120),
        -4000 <= q <= 4000,
    ensures
        located(loc, sig, q as int),
{
    let ghost qp: nat = pos_part(q as int);
    let ghost qn: nat = neg_part(q as int);
    let ghost num: int = sig * pow2(qp);
    let ghost den: int = pow2(qn) as int;
    let ghost c: int = pow2(qp) as int;
    proof {
        lemma_pow2_top();
        lemma_pow2_pos(qp);
        lemma_pow2_pos(qn);
        lemma2_to64();
    }
    if sig == 0 {
        proof {
            lemma_step(0);
            assert(weight_of(0) == 0);
            assert(den * 0 == 0);
            assert(num == 0) by (nonlinear_arith)
                requires
                    num == sig * c,
                    sig == 0,
            ;
        }
        return Located { floor: 0, side: Side::Exact };
    }
    let mut p: u128 = 1;
    let mut l: i64 = 0;
    while p <= sig
        invariant
            0 < sig < pow2(120),
            0 <= l <= 120,
            p == pow2(l as nat),
            l > 0 ==> pow2((l - 1) as nat) <= sig,
        decreases 121 - l,
    {
        proof {
            lemma_pow2_top();
            if l >= 120 {
                assert(false);
            }
            lemma_pow2_unfold((l + 1) as nat);
            lemma_pow2_increases((l + 1) as nat, 120);
        }
        p = 2 * p;
        l = l + 1;
    }
    proof {
        if sig >= pow2(53) {
            if l < 54 {
                lemma_pow2_increases(l as nat, 53);
                assert(false);
            }
        }
    }
    let e: i64 = l + q - 52;
    if e >= 2047 {
        proof {
            assert(q > 0);
            lemma_pow2_adds((l - 1) as nat, q as nat);
            lemma_pow2_increases(2098, (l - 1 + q) as nat);
            lemma_pow2_adds(52, 2046);
            assert(INFINITY_BITS / HIDDEN_BIT == 2047);
            assert(INFINITY_BITS % HIDDEN_BIT == 0);
            assert(weight_of(INFINITY_BITS) == pow2(2098));
            assert(sig * pow2(qp) >= pow2((l - 1) as nat) * pow2(qp)) by (nonlinear_arith)
                requires
                    sig >= pow2((l - 1) as nat),
                    pow2(qp) > 0,
            ;
            assert(den == 1);
        }
        return Located { floor: INFINITY_BITS, side: Side::Over };
    }
    let u: i64 = if e >= 1 {
        e - 1
    } else {
        0
    };
    let shift: i64 = u - q;
    if shift <= 0 {
        let mult: u128 = pow2_u128((-shift) as u64);
        proof {
            assert(q >= 0);
            assert(l <= 53);
            lemma_pow2_adds((l - 1) as nat, (-shift) as nat);
            lemma_pow2_adds(l as nat, (-shift) as nat);
            if e >= 1 {
                assert(l - shift == 53);
            } else {
                lemma_pow2_increases((l - shift) as nat, 52);
            }
            assert(sig * mult < pow2(l as nat) * mult) by (nonlinear_arith)
                requires
                    sig < pow2(l as nat),
                    mult > 0,
            ;
            assert(sig * mult >= pow2((l - 1) as nat) * mult) by (nonlinear_arith)
                requires
                    sig >= pow2((l - 1) as nat),
                    mult > 0,
            ;
        }
        let mant: u128 = sig * mult;
        let m: u64 = (u as u64) * HIDDEN_BIT + (mant as u64);
        proof {
            lemma_weight_of_parts(u as nat, mant as nat);
            lemma_step(m);
            lemma_pow2_adds((-shift) as nat, u as nat);
            assert(mant * pow2(u as nat) == sig * pow2(qp)) by (nonlinear_arith)
                requires
                    mant == sig * mult,
                    mult * pow2(u as nat) == pow2(qp),
            ;
            assert(den == 1);
        }
        return Located { floor: m, side: Side::Exact };
    }
    if shift >= 127 {
        proof {
            assert(u == 0);
            assert(q < 0);
            lemma_pow2_increases(127, qn);
            lemma_step(0);
            assert(weight_of(0) == 0);
            assert(weight_of(1) == 1);
            assert(qp == 0);
            assert(pow2(0) == 1);
            assert(num == sig) by (nonlinear_arith)
                requires
                    num == sig * 1,
            ;
            assert(c == 1);
            assert(den >= pow2(127));
            assert(den * (0 + 1) == den) by (nonlinear_arith);
            assert(den * 0 == 0) by (nonlinear_arith);
        }
        return Located { floor: 0, side: Side::Below };
    }
    let div: u128 = pow2_u128(shift as u64);
    let mant: u128 = sig / div;
    let rem: u128 = sig % div;
    let half: u128 = div / 2;
    proof {
        lemma_pow2_unfold(shift as nat);
        assert(div == 2 * half);
        assert(sig == mant * div + rem) by {
            vstd::arithmetic::div_mod::lemma_fundamental_div_mod(sig as int, div as int);
            assert(div * mant == mant * div) by (nonlinear_arith);
        }
        if e >= 1 {
            assert(shift == l - 53);
            lemma_pow2_adds(52, shift as nat);
            lemma_pow2_adds(53, shift as nat);
            assert(mant >= pow2(52)) by (nonlinear_arith)
                requires
                    sig == mant * div + rem,
                    rem < div,
                    sig >= pow2(52) * div,
                    div > 0,
            ;
            assert(mant < pow2(53)) by (nonlinear_arith)
                requires
                    sig == mant * div + rem,
                    sig < pow2(53) * div,
                    div > 0,
            ;
        } else {
            assert(shift == -q);
            lemma_pow2_increases(l as nat, (52 + shift) as nat);
            lemma_pow2_adds(52, shift as nat);
            assert(mant < pow2(52)) by (nonlinear_arith)
                requires
                    sig == mant * div + rem,
                    sig < pow2(52) * div,
                    div > 0,
            ;
        }
    }
    let m0: u64 = (u as u64) * HIDDEN_BIT + (mant as u64);
    proof {
        lemma_weight_of_parts(u as nat, mant as nat);
        lemma_step(m0);
        let pu = pow2(u as nat) as int;
        if q >= 0 {
            lemma_pow2_adds(shift as nat, q as nat);
            assert(qn == 0 && qp == q);
            assert(den == 1);
            assert(pu == pow2((shift + q) as nat));
            assert(pu == div * c);
            assert(den * pu == div * c) by (nonlinear_arith)
                requires
                    den == 1,
                    pu == div * c,
            ;
        } else {
            lemma_pow2_adds(qn, u as nat);
            assert(qp == 0 && qn == -q);
            assert(c == 1);
            assert(div == pow2((qn + u) as nat));
            assert(den * pu == div);
            assert(den * pu == div * c) by (nonlinear_arith)
                requires
                    c == 1,
                    den * pu == div,
            ;
        }
        let w0 = weight_of(m0) as int;
        let w1 = weight_of((m0 + 1) as u64) as int;
        assert(den * w0 == mant * div * c) by (nonlinear_arith)
            requires
                w0 == mant * pu,
                den * pu == div * c,
        ;
        assert(den * w1 == (mant + 1) * div * c) by (nonlinear_arith)
            requires
                w1 == mant * pu + pu,
                den * pu == div * c,
        ;
        assert(num - den * w0 == rem * c) by (nonlinear_arith)
            requires
                num == sig * c,
                sig == mant * div + rem,
                den * w0 == mant * div * c,
        ;
        assert(den * w1 - num == (div - rem) * c) by (nonlinear_arith)
            requires
                num == sig * c,
                sig == mant * div + rem,
                den * w1 == (mant + 1) * div * c,
        ;
        assert(den * (w0 + w1) == den * w0 + den * w1) by (nonlinear_arith);
        let lo = rem * c;
        let hi = (div - rem) * c;
        assert(lo >= 0 && hi >= c && (rem > 0 ==> lo >= c)) by (nonlinear_arith)
            requires
                lo == rem * c,
                hi == (div - rem) * c,
                c > 0,
                0 <= rem < div,
        ;
        assert((hi < lo) == (rem > half) && (hi == lo) == (rem == half)) by (nonlinear_arith)
            requires
                lo == rem * c,
                hi == (div - rem) * c,
                c > 0,
                div == 2 * half,
        ;
        assert(rem < half ==> lo + 2 * c <= hi) by (nonlinear_arith)
            requires
                lo == rem * c,
                hi == (div - rem) * c,
                c > 0,
                div == 2 * half,
        ;
    }
    let side = if rem == 0 {
        Side::Exact
    } else if rem < half {
        Side::Below
    } else if rem == half {
        Side::Half
    } else {
        Side::Above
    };
    Located { floor: m0, side }
}

/// The bit pattern of `sig * 2^q / 2^1074`, rounded.
pub(crate) fn round_pack(sig: u128, q: i64) -> (m: u64)
    requires
        sig < pow2(120),
        -4000 <= q <= 4000,
    ensures
        nearest_even(m, sig * pow2(pos_part(q as int)), pow2(neg_part(q as int)) as int),
{
    let loc = locate(sig, q);
    let ghost a: int = sig * pow2(pos_part(q as int));
    let ghost b: int = pow2(neg_part(q as int)) as int;
    proof {
        lemma_pow2_pos(neg_part(q as int));
    }
    match loc.side {
        Side::Over => {
            proof {
                lemma_overflow(a, b);
            }
            INFINITY_BITS
        },
        Side::Exact | Side::Below => {
            proof {
                lemma_step(loc.floor);
                let w0 = weight_of(loc.floor) as int;
                let w1 = weight_of((loc.floor + 1) as u64) as int;
                assert(b * (w0 + w1) == b * w0 + b * w1) by (nonlinear_arith);
                assert(b * w0 < b * w1) by (nonlinear_arith)
                    requires
                        b > 0,
                        w0 < w1,
                ;
                lemma_bracket(loc.floor, a, b, false);
            }
            loc.floor
        },
        Side::Half => {
            let up = loc.floor % 2 == 1;
            proof {
                lemma_step(loc.floor);
                let w0 = weight_of(loc.floor) as int;
                let w1 = weight_of((loc.floor + 1) as u64) as int;
                assert(b * (w0 + w1) == b * w0 + b * w1) by (nonlinear_arith);
                assert(b * w0 < b * w1) by (nonlinear_arith)
                    requires
                        b > 0,
                        w0 < w1,
                ;
                lemma_bracket(loc.floor, a, b, up);
            }
            if up {
                loc.floor + 1
            } else {
                loc.floor
            }
        },
        Side::Above => {
            proof {
                lemma_step(loc.floor);
                let w0 = weight_of(loc.floor) as int;
                let w1 = weight_of((loc.floor + 1) as u64) as int;
                assert(b * (w0 + w1) == b * w0 + b * w1) by (nonlinear_arith);
                lemma_bracket(loc.floor, a, b, true);
            }
            loc.floor + 1
        },
    }
}

/// The bit pattern of the fraction `num / den / 2^1074`, rounded, where the
/// fraction lies strictly between `sig * 2^q / 2^1074` and what `sig + 1`
/// would give, and `sig` has 54 bits or more.
pub(crate) fn round_pack_between(sig: u128, q: i64, Ghost(num): Ghost<int>, Ghost(den): Ghost<int>) -> (m:
    u64)
    requires
        pow2(53) <= sig < pow2(120),
        -4000 <= q <= 4000,
        den > 0,
        den * (sig * pow2(pos_part(q as int))) < num * pow2(neg_part(q as int)),
        num * pow2(neg_part(q as int)) < den * (sig * pow2(pos_part(q as int)) + pow2(
            pos_part(q as int),
        )),
    ensures
        nearest_even(m, num, den),
{
    let loc = locate(sig, q);
    let ghost a: int = sig * pow2(pos_part(q as int));
    let ghost b: int = pow2(neg_part(q as int)) as int;
    let ghost c: int = pow2(pos_part(q as int)) as int;
    proof {
        lemma_pow2_pos(neg_part(q as int));
        lemma_pow2_pos(pos_part(q as int));
    }
    match loc.side {
        Side::Over => {
            proof {
                let w = weight_of(INFINITY_BITS) as int;
                assert(num >= den * w) by (nonlinear_arith)
                    requires
                        den * a < num * b,
                        a >= b * w,
                        b > 0,
                        den > 0,
                ;
                lemma_overflow(num, den);
            }
            INFINITY_BITS
        },
        Side::Exact | Side::Below => {
            proof {
                lemma_step(loc.floor);
                let w0 = weight_of(loc.floor) as int;
                let w1 = weight_of((loc.floor + 1) as u64) as int;
                assert(den * w0 < num && 2 * num < den * (w0 + w1)) by (nonlinear_arith)
                    requires
                        den * a < num * b,
                        num * b < den * (a + c),
                        b * w0 <= a,
                        2 * (a + c) <= b * (w0 + w1),
                        b > 0,
                        den > 0,
                ;
                assert(den * (w0 + w1) == den * w0 + den * w1) by (nonlinear_arith);
                lemma_bracket(loc.floor, num, den, false);
            }
            loc.floor
        },
        Side::Half | Side::Above => {
            proof {
                lemma_step(loc.floor);
                let w0 = weight_of(loc.floor) as int;
                let w1 = weight_of((loc.floor + 1) as u64) as int;
                assert(num < den * w1 && 2 * num > den * (w0 + w1)) by (nonlinear_arith)
                    requires
                        den * a < num * b,
                        num * b < den * (a + c),
                        a + c <= b * w1,
                        2 * a >= b * (w0 + w1),
                        b > 0,
                        den > 0,
                ;
                assert(den * (w0 + w1) == den * w0 + den * w1) by (nonlinear_arith);
                assert(den * w0 < den * w1) by (nonlinear_arith)
                    requires
                        den > 0,
                        w0 < w1,
                ;
                lemma_bracket(loc.floor, num, den, true);
            }
            loc.floor + 1
        },
    }
}

} // verus!

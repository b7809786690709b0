//! Random draws.
//!
//! The generator is the `rand` crate's. What it hands out is a 64-bit word,
//! and the number in `[0, 1)` that a word stands for is made here.

use vstd::prelude::*;
use vstd::arithmetic::power2::pow2;
use vstd::arithmetic::power2::lemma_pow2_pos;
use crate::arith::lemma_rounded;
use crate::arith::lemma_rounded_exact;
use crate::round::lemma_same_fraction;
use crate::round::nearest_even;
use crate::scalar::weight_of;
use core::ops::Neg;
use crate::convert::scaled;
use crate::float3::Float3;
use crate::float3::Vec3;
use crate::scalar::Scalar;
use crate::scalar::ONE_BITS;

verus! {

/// `rand::random::<u64>()`: the next 64 bits of the calling thread's
/// generator. Nothing is claimed of them.
#[verifier::external_body]
fn random_word() -> (word: u64) {
    rand::random::<u64>()
}

/// `s` is the number that `word` stands for: its upper 53 bits, read as an
/// integer and divided by two to the 53rd. It is not negative and lies below
/// one. One number at most is this to a word.
pub open spec fn stands_for(s: Scalar, word: u64) -> bool {
    &&& !s.is_sign_negative_spec()
    &&& s.bits < ONE_BITS
    &&& s.numerator() == (word / 2048) * pow2(1021)
}

/// The number in `[0, 1)` that a word stands for: `(word >> 11) / 2^53`.
/// Every such number is a binary64 number, so nothing is rounded.
pub fn unit_interval(word: u64) -> (s: Scalar)
    ensures
        stands_for(s, word),
        Scalar::zero().le_spec(s) && s.lt_spec(Scalar::one()),
{
    let s = scaled(word / 2048, 1022);
    proof {
        assert(s.magnitude() == s.bits);
        s.lemma_order_by_bits(Scalar::one());
    }
    s
}

/// The bit pattern of the number nearest to two pi.
pub const TWO_PI_BITS: u64 = 0x4019_21fb_5444_2d18;

impl Float3 {
    /// The angle of a direction weighted by the cosine: two pi times the
    /// first component of a draw.
    pub open spec fn cosine_phase_spec(self) -> Scalar {
        Scalar { bits: TWO_PI_BITS }.mul_spec(self.x)
    }

    /// The direction weighted by the cosine that a draw gives, with `sin` and
    /// `cos` the sine and the cosine of its phase and `r2` its second
    /// component: `(sin * sqrt(r2), cos * sqrt(r2), sqrt(1 - r2))`.
    pub open spec fn cosine_direction_spec(self, sin: Scalar, cos: Scalar) -> Vec3 {
        Float3 {
            x: sin.mul_spec(self.y.sqrt_spec()),
            y: cos.mul_spec(self.y.sqrt_spec()),
            z: Scalar::one().sub_spec(self.y).sqrt_spec(),
        }
    }

    /// The angle whose sine and cosine a direction weighted by the cosine
    /// needs.
    pub fn cosine_phase(&self) -> (angle: Scalar)
        ensures
            angle == self.cosine_phase_spec(),
    {
        Scalar { bits: TWO_PI_BITS } * self.x
    }

    /// The direction weighted by the cosine that a draw gives. `sin` and
    /// `cos` are the sine and the cosine of the draw's `cosine_phase`.
    pub fn cosine_direction(&self, sin: Scalar, cos: Scalar) -> (v: Vec3)
        ensures
            v == self.cosine_direction_spec(sin, cos),
    {
        let z = (Scalar::one() - self.y).sqrt();
        let r2sqrt = self.y.sqrt();
        Float3 { x: sin * r2sqrt, y: cos * r2sqrt, z }
    }

    /// A direction weighted by the cosine. One draw is made; the sine and
    /// the cosine are the caller's: `sin` and `cos` are asked for those of
    /// the draw's phase.
    pub fn random_cosine_direction<F: Fn(Scalar) -> Scalar, G: Fn(Scalar) -> Scalar>(
        sin: &F,
        cos: &G,
    ) -> (v: Vec3)
        requires
            forall|x: Scalar| call_requires(*sin, (x,)),
            forall|x: Scalar| call_requires(*cos, (x,)),
        ensures
            exists|draw: Float3, s: Scalar, c: Scalar| #[trigger]
                draw.cosine_direction_spec(s, c) == v && draw.is_draw() && call_ensures(
                    *sin,
                    (draw.cosine_phase_spec(),),
                    s,
                ) && call_ensures(*cos, (draw.cosine_phase_spec(),), c),
    {
        let draw = Float3::random();
        let phase = draw.cosine_phase();
        let s = sin(phase);
        let c = cos(phase);
        let v = draw.cosine_direction(s, c);
        assert(draw.cosine_direction_spec(s, c) == v && draw.is_draw());
        v
    }

    /// Every component is a draw: the number that some word stands for.
    pub open spec fn is_draw(self) -> bool {
        &&& exists|w: u64| stands_for(self.x, w)
        &&& exists|w: u64| stands_for(self.y, w)
        &&& exists|w: u64| stands_for(self.z, w)
    }

    /// A draw stretched from `[0, 1)` to the interval from `min` to `max`:
    /// `min + x * (max - min)` in every component.
    pub open spec fn limit_spec(self, min: Scalar, max: Scalar) -> Float3 {
        Float3 {
            x: min.add_spec(self.x.mul_spec(max.sub_spec(min))),
            y: min.add_spec(self.y.mul_spec(max.sub_spec(min))),
            z: min.add_spec(self.z.mul_spec(max.sub_spec(min))),
        }
    }

    /// The candidate, where it lies inside the unit sphere: where its squared
    /// length is below one.
    pub open spec fn in_unit_sphere_spec(self) -> Option<Vec3> {
        if self.length_squared_spec().lt_spec(Scalar::one()) {
            Some(self)
        } else {
            None
        }
    }

    /// The vector with its third component replaced by positive zero.
    pub open spec fn flattened(self) -> Float3 {
        Float3 { x: self.x, y: self.y, z: Scalar::zero() }
    }

    /// The candidate flattened, where that lies inside the unit disk.
    pub open spec fn in_unit_disk_spec(self) -> Option<Vec3> {
        self.flattened().in_unit_sphere_spec()
    }

    /// The point, turned into the hemisphere round `normal`: itself where its
    /// dot product with the normal is positive, mirrored through the origin
    /// otherwise.
    pub open spec fn in_hemisphere_spec(self, normal: Vec3) -> Vec3 {
        if Scalar::zero().lt_spec(self.dot_spec(normal)) {
            self
        } else {
            self.negated()
        }
    }

    /// Three draws from `[0, 1)`, each a multiple of two to the minus 53rd.
    pub fn random() -> (v: Float3)
        ensures
            v.is_draw(),
            Scalar::zero().le_spec(v.x) && v.x.lt_spec(Scalar::one()),
            Scalar::zero().le_spec(v.y) && v.y.lt_spec(Scalar::one()),
            Scalar::zero().le_spec(v.z) && v.z.lt_spec(Scalar::one()),
    {
        let wx = random_word();
        let wy = random_word();
        let wz = random_word();
        let v = Float3 { x: unit_interval(wx), y: unit_interval(wy), z: unit_interval(wz) };
        assert(stands_for(v.x, wx) && stands_for(v.y, wy) && stands_for(v.z, wz));
        v
    }

    /// One draw from `[0, 1)`, a multiple of two to the minus 53rd, in all
    /// three components.
    pub fn random_full() -> (v: Float3)
        ensures
            v.x == v.y && v.y == v.z,
            exists|w: u64| stands_for(v.x, w),
            Scalar::zero().le_spec(v.x) && v.x.lt_spec(Scalar::one()),
    {
        let w = random_word();
        let v = Float3::full(unit_interval(w));
        assert(stands_for(v.x, w));
        v
    }

    /// Stretches a draw from `[0, 1)` to the interval from `min` to `max`.
    pub fn limit(&self, min: Scalar, max: Scalar) -> (v: Float3)
        ensures
            v == self.limit_spec(min, max),
    {
        Float3 {
            x: min + self.x * (max - min),
            y: min + self.y * (max - min),
            z: min + self.z * (max - min),
        }
    }

    /// Three draws from the interval from `min` to `max`.
    pub fn random_limit(min: Scalar, max: Scalar) -> (v: Float3)
        ensures
            exists|draw: Float3| #[trigger] draw.is_draw() && v == draw.limit_spec(min, max),
    {
        let draw = Float3::random();
        let v = draw.limit(min, max);
        assert(draw.is_draw() && v == draw.limit_spec(min, max));
        v
    }

    /// Keeps a candidate that lies inside the unit sphere.
    pub fn in_unit_sphere(&self) -> (r: Option<Vec3>)
        ensures
            r == self.in_unit_sphere_spec(),
    {
        if self.length_squared().lt(Scalar::one()) {
            Some(*self)
        } else {
            None
        }
    }

    /// Flattens a candidate and keeps it where it then lies inside the unit
    /// disk.
    pub fn in_unit_disk(&self) -> (r: Option<Vec3>)
        ensures
            r == self.in_unit_disk_spec(),
    {
        Float3 { x: self.x, y: self.y, z: Scalar::zero() }.in_unit_sphere()
    }

    /// Turns a point into the hemisphere round `normal`.
    pub fn in_hemisphere(&self, normal: Vec3) -> (v: Vec3)
        ensures
            v == self.in_hemisphere_spec(normal),
    {
        if Scalar::zero().lt(self.dot(normal)) {
            *self
        } else {
            self.neg()
        }
    }

    /// A point inside the unit sphere by rejection sampling: candidates are
    /// drawn from the cube `[-1, 1)^3` until one lies inside the sphere. A
    /// round fails with a probability below one half. After as many failed
    /// rounds as 64 bits count, the centre of the sphere is returned, so that
    /// the function ends whatever is drawn.
    pub fn random_in_unit_sphere() -> (v: Vec3)
        ensures
            v.length_squared_spec().lt_spec(Scalar::one()),
            v == Float3::zero() || exists|draw: Float3| #[trigger]
                draw.is_draw() && Some(v) == draw.limit_spec(
                    Scalar::one().negated(),
                    Scalar::one(),
                ).in_unit_sphere_spec(),
    {
        let mut rounds: u64 = u64::MAX;
        while rounds > 0
            decreases rounds,
        {
            let draw = Float3::random();
            if let Some(v) = draw.limit(Scalar::one().neg(), Scalar::one()).in_unit_sphere() {
                assert(draw.is_draw());
                return v;
            }
            rounds = rounds - 1;
        }
        proof {
            lemma_zero_length();
        }
        Float3::zero()
    }

    /// A direction: a point of the unit sphere, normalized.
    pub fn random_unit_vector() -> (v: Vec3)
        ensures
            exists|p: Vec3| #[trigger]
                p.length_squared_spec().lt_spec(Scalar::one()) && v == p.normalize_spec(),
    {
        let p = Float3::random_in_unit_sphere();
        p.normalize()
    }

    /// A point of the unit sphere in the hemisphere round `normal`.
    pub fn random_in_hemisphere(normal: Vec3) -> (v: Vec3)
        ensures
            exists|p: Vec3| #[trigger]
                p.length_squared_spec().lt_spec(Scalar::one()) && v == p.in_hemisphere_spec(normal),
    {
        let p = Float3::random_in_unit_sphere();
        p.in_hemisphere(normal)
    }

    /// A point inside the unit disk of the first two axes by rejection
    /// sampling: candidates are drawn from the cube `[-1, 1)^3` and flattened
    /// until one lies inside the disk. After as many failed rounds as 64 bits
    /// count, the centre is returned.
    pub fn random_in_unit_disk() -> (v: Vec3)
        ensures
            v.z == Scalar::zero(),
            v.length_squared_spec().lt_spec(Scalar::one()),
            v == Float3::zero() || exists|draw: Float3| #[trigger]
                draw.is_draw() && Some(v) == draw.limit_spec(
                    Scalar::one().negated(),
                    Scalar::one(),
                ).in_unit_disk_spec(),
    {
        let mut rounds: u64 = u64::MAX;
        while rounds > 0
            decreases rounds,
        {
            let draw = Float3::random();
            if let Some(v) = draw.limit(Scalar::one().neg(), Scalar::one()).in_unit_disk() {
                assert(draw.is_draw());
                return v;
            }
            rounds = rounds - 1;
        }
        proof {
            lemma_zero_length();
        }
        Float3::zero()
    }
}

/// The vector of three zeros has the length zero.
pub proof fn lemma_zero_length()
    ensures
        Float3::zero().length_squared_spec() == Scalar::zero(),
        Float3::zero().length_squared_spec().lt_spec(Scalar::one()),
{
    let zero = Scalar::zero();
    assert(weight_of(0) == 0);
    assert(0 * 0 == 0);
    lemma_pow2_pos(1074);
    assert(pow2(1074) * 0 == 0);
    lemma_rounded_exact(0);
    assert(nearest_even(0, 0, 1));
    assert(1 * 0 == 0 * pow2(1074));
    lemma_same_fraction(0, 0, 1, 0, pow2(1074) as int);
    lemma_rounded(0, 0, pow2(1074) as int);
    assert(zero.mul_spec(zero) == zero);
    assert(zero.add_spec(zero) == zero);
    zero.lemma_order_by_bits(Scalar::one());
}

} // verus!

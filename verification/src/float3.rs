//! Triples of scalars: vectors, points and colours.

use vstd::prelude::*;
use vstd::std_specs::cmp::PartialEqSpecImpl;
use vstd::std_specs::ops::AddSpecImpl;
use vstd::std_specs::ops::DivSpecImpl;
use vstd::std_specs::ops::MulSpecImpl;
use vstd::std_specs::ops::NegSpecImpl;
use vstd::std_specs::ops::SubSpecImpl;
use core::ops::Neg;
use crate::scalar::Scalar;

verus! {

/// Three scalars. A vector, a point and a colour are all this type.
#[derive(Clone, Copy, Debug)]
pub struct Float3 {
    pub x: Scalar,
    pub y: Scalar,
    pub z: Scalar,
}

/// Red, green and blue.
pub type Color = Float3;

/// A direction with a length.
pub type Vec3 = Float3;

/// A position.
pub type Point3 = Float3;

impl Float3 {
    /// All three components are `value`.
    pub open spec fn full_spec(value: Scalar) -> Float3 {
        Float3 { x: value, y: value, z: value }
    }

    /// Positive zero three times.
    pub open spec fn zero_spec() -> Float3 {
        Float3::full_spec(Scalar::zero())
    }

    /// One three times.
    pub open spec fn one_spec() -> Float3 {
        Float3::full_spec(Scalar::one())
    }

    /// Each component with its sign bit flipped.
    pub open spec fn negated(self) -> Float3 {
        Float3 { x: self.x.negated(), y: self.y.negated(), z: self.z.negated() }
    }

    /// Each component brought into `[0, 1]`.
    pub open spec fn saturate_spec(self) -> Float3 {
        Float3 {
            x: self.x.saturate_spec(),
            y: self.y.saturate_spec(),
            z: self.z.saturate_spec(),
        }
    }

    /// The absolute value of every component is below `eps`.
    pub open spec fn near_zero_spec(self, eps: Scalar) -> bool {
        &&& self.x.abs_spec().lt_spec(eps)
        &&& self.y.abs_spec().lt_spec(eps)
        &&& self.z.abs_spec().lt_spec(eps)
    }

    /// Component by component the two hold the same value.
    pub open spec fn same_value(self, other: Float3) -> bool {
        &&& self.x.same_value(other.x)
        &&& self.y.same_value(other.y)
        &&& self.z.same_value(other.z)
    }

    pub fn new(x: Scalar, y: Scalar, z: Scalar) -> (v: Float3)
        ensures
            v.x == x,
            v.y == y,
            v.z == z,
    {
        Float3 { x, y, z }
    }

    #[verifier::when_used_as_spec(zero_spec)]
    pub fn zero() -> (v: Float3)
        ensures
            v == Float3::zero_spec(),
    {
        Float3::full(Scalar::zero())
    }

    #[verifier::when_used_as_spec(one_spec)]
    pub fn one() -> (v: Float3)
        ensures
            v == Float3::one_spec(),
    {
        Float3::full(Scalar::one())
    }

    #[verifier::when_used_as_spec(full_spec)]
    pub fn full(value: Scalar) -> (v: Float3)
        ensures
            v == Float3::full_spec(value),
    {
        Float3 { x: value, y: value, z: value }
    }

    pub fn x(&self) -> (x: Scalar)
        ensures
            x == self.x,
    {
        self.x
    }

    pub fn y(&self) -> (y: Scalar)
        ensures
            y == self.y,
    {
        self.y
    }

    pub fn z(&self) -> (z: Scalar)
        ensures
            z == self.z,
    {
        self.z
    }

    pub fn to_array(&self) -> (a: [Scalar; 3])
        ensures
            a@ == seq![self.x, self.y, self.z],
    {
        let a = [self.x, self.y, self.z];
        assert(a@ =~= seq![self.x, self.y, self.z]);
        a
    }

    /// The unit vector along the first axis.
    pub fn xaxis() -> (v: Float3)
        ensures
            v.x == Scalar::one() && v.y == Scalar::zero() && v.z == Scalar::zero(),
    {
        Float3::new(Scalar::one(), Scalar::zero(), Scalar::zero())
    }

    /// The unit vector along the second axis.
    pub fn yaxis() -> (v: Float3)
        ensures
            v.x == Scalar::zero() && v.y == Scalar::one() && v.z == Scalar::zero(),
    {
        Float3::new(Scalar::zero(), Scalar::one(), Scalar::zero())
    }

    /// The unit vector along the third axis.
    pub fn zaxis() -> (v: Float3)
        ensures
            v.x == Scalar::zero() && v.y == Scalar::zero() && v.z == Scalar::one(),
    {
        Float3::new(Scalar::zero(), Scalar::zero(), Scalar::one())
    }

    /// Whether every component is within `eps` of zero.
    pub fn near_zero(&self, eps: Scalar) -> (r: bool)
        ensures
            r == self.near_zero_spec(eps),
    {
        self.x.abs().lt(eps) && self.y.abs().lt(eps) && self.z.abs().lt(eps)
    }

    /// Clamps every component into `[0, 1]`.
    pub fn saturate(&self) -> (v: Float3)
        ensures
            v == self.saturate_spec(),
    {
        Float3 { x: self.x.saturate(), y: self.y.saturate(), z: self.z.saturate() }
    }

}

impl PartialEq for Float3 {
    fn eq(&self, other: &Float3) -> (r: bool) {
        self.x == other.x && self.y == other.y && self.z == other.z
    }
}

impl PartialEqSpecImpl for Float3 {
    open spec fn obeys_eq_spec() -> bool {
        true
    }

    open spec fn eq_spec(&self, other: &Float3) -> bool {
        self.same_value(*other)
    }
}

impl Neg for Float3 {
    type Output = Float3;

    fn neg(self) -> (v: Float3) {
        Float3 { x: self.x.neg(), y: self.y.neg(), z: self.z.neg() }
    }
}

impl NegSpecImpl for Float3 {
    open spec fn obeys_neg_spec() -> bool {
        true
    }

    open spec fn neg_req(self) -> bool {
        true
    }

    open spec fn neg_spec(self) -> Float3 {
        self.negated()
    }
}

/// The bit pattern of 2.
pub const TWO_BITS: u64 = 0x4000_0000_0000_0000;

impl Scalar {
    /// Two.
    pub open spec fn two_spec() -> Scalar {
        Scalar { bits: TWO_BITS }
    }

    /// Two.
    #[verifier::when_used_as_spec(two_spec)]
    pub fn two() -> (s: Scalar)
        ensures
            s == Scalar::two_spec(),
    {
        Scalar { bits: TWO_BITS }
    }

    /// The number times itself.
    pub open spec fn squared(self) -> Scalar {
        self.mul_spec(self)
    }
}

impl Float3 {
    /// The sum, component by component.
    pub open spec fn add_spec(self, rhs: Float3) -> Float3 {
        Float3 {
            x: self.x.add_spec(rhs.x),
            y: self.y.add_spec(rhs.y),
            z: self.z.add_spec(rhs.z),
        }
    }

    /// The difference, component by component.
    pub open spec fn sub_spec(self, rhs: Float3) -> Float3 {
        Float3 {
            x: self.x.sub_spec(rhs.x),
            y: self.y.sub_spec(rhs.y),
            z: self.z.sub_spec(rhs.z),
        }
    }

    /// The product, component by component.
    pub open spec fn mul_spec(self, rhs: Float3) -> Float3 {
        Float3 {
            x: self.x.mul_spec(rhs.x),
            y: self.y.mul_spec(rhs.y),
            z: self.z.mul_spec(rhs.z),
        }
    }

    /// Every component times `k`.
    pub open spec fn scale_spec(self, k: Scalar) -> Float3 {
        Float3 { x: self.x.mul_spec(k), y: self.y.mul_spec(k), z: self.z.mul_spec(k) }
    }

    /// Every component divided by `k`.
    pub open spec fn div_spec(self, k: Scalar) -> Float3 {
        Float3 { x: self.x.div_spec(k), y: self.y.div_spec(k), z: self.z.div_spec(k) }
    }

    /// The square root of every component.
    pub open spec fn sqrt_spec(self) -> Float3 {
        Float3 { x: self.x.sqrt_spec(), y: self.y.sqrt_spec(), z: self.z.sqrt_spec() }
    }

    /// The dot product: the three products added up from zero, the first
    /// component first, each sum rounded.
    pub open spec fn dot_spec(self, rhs: Float3) -> Scalar {
        Scalar::zero().add_spec(self.x.mul_spec(rhs.x)).add_spec(self.y.mul_spec(rhs.y)).add_spec(
            self.z.mul_spec(rhs.z),
        )
    }

    /// The cross product.
    pub open spec fn cross_spec(self, rhs: Float3) -> Float3 {
        Float3 {
            x: self.y.mul_spec(rhs.z).sub_spec(self.z.mul_spec(rhs.y)),
            y: self.z.mul_spec(rhs.x).sub_spec(self.x.mul_spec(rhs.z)),
            z: self.x.mul_spec(rhs.y).sub_spec(self.y.mul_spec(rhs.x)),
        }
    }

    /// The squared length: the three squares added up from zero.
    pub open spec fn length_squared_spec(self) -> Scalar {
        Scalar::zero().add_spec(self.x.mul_spec(self.x)).add_spec(self.y.mul_spec(self.y)).add_spec(
            self.z.mul_spec(self.z),
        )
    }

    /// The length: the square root of the squared length.
    pub open spec fn length_spec(self) -> Scalar {
        self.length_squared_spec().sqrt_spec()
    }

    /// The vector divided by its length.
    pub open spec fn normalize_spec(self) -> Float3 {
        self.div_spec(self.length_spec())
    }

    /// The vector mirrored at the plane with the normal `normal`:
    /// `v - 2 * dot(v, n) * n`.
    pub open spec fn reflect_spec(self, normal: Float3) -> Float3 {
        self.sub_spec(normal.scale_spec(Scalar::two().mul_spec(self.dot_spec(normal))))
    }

    /// The discriminant of refraction:
    /// `1 - ni_over_nt^2 * (1 - dot(normalize(v), n)^2)`.
    pub open spec fn refract_discriminant(self, normal: Float3, ni_over_nt: Scalar) -> Scalar {
        let dt = self.normalize_spec().dot_spec(normal);
        Scalar::one().sub_spec(
            ni_over_nt.squared().mul_spec(Scalar::one().sub_spec(dt.squared())),
        )
    }

    /// The refracted direction, for a discriminant that is positive:
    /// `-ni_over_nt * (uv - n * dt) - n * sqrt(d)`, with `uv` the vector
    /// normalized and `dt` its dot product with the normal.
    pub open spec fn refract_direction(self, normal: Float3, ni_over_nt: Scalar) -> Float3 {
        let uv = self.normalize_spec();
        let dt = uv.dot_spec(normal);
        let d = self.refract_discriminant(normal, ni_over_nt);
        uv.sub_spec(normal.scale_spec(dt)).scale_spec(ni_over_nt.negated()).sub_spec(
            normal.scale_spec(d.sqrt_spec()),
        )
    }

    /// The refracted direction, or none where the discriminant is zero,
    /// negative or a NaN: the surface reflects all then.
    pub open spec fn refract_spec(self, normal: Float3, ni_over_nt: Scalar) -> Option<Float3> {
        if Scalar::zero().lt_spec(self.refract_discriminant(normal, ni_over_nt)) {
            Some(self.refract_direction(normal, ni_over_nt))
        } else {
            None
        }
    }

    /// The point at `t` on the line from `self` to `v`: `a + (b - a) * t`.
    pub open spec fn lerp_spec(self, v: Float3, t: Scalar) -> Float3 {
        self.add_spec(v.sub_spec(self).scale_spec(t))
    }

    pub fn sqrt(&self) -> (v: Float3)
        ensures
            v == self.sqrt_spec(),
    {
        Float3 { x: self.x.sqrt(), y: self.y.sqrt(), z: self.z.sqrt() }
    }

    pub fn dot(&self, rhs: Float3) -> (d: Scalar)
        ensures
            d == self.dot_spec(rhs),
    {
        Scalar::zero() + self.x * rhs.x + self.y * rhs.y + self.z * rhs.z
    }

    pub fn cross(&self, rhs: Float3) -> (v: Float3)
        ensures
            v == self.cross_spec(rhs),
    {
        Float3 {
            x: self.y * rhs.z - self.z * rhs.y,
            y: self.z * rhs.x - self.x * rhs.z,
            z: self.x * rhs.y - self.y * rhs.x,
        }
    }

    pub fn length(&self) -> (l: Scalar)
        ensures
            l == self.length_spec(),
    {
        self.length_squared().sqrt()
    }

    pub fn length_squared(&self) -> (l: Scalar)
        ensures
            l == self.length_squared_spec(),
            l == self.dot_spec(*self),
    {
        Scalar::zero() + self.x * self.x + self.y * self.y + self.z * self.z
    }

    /// The vector divided by its length. A vector of length zero has no
    /// direction, and its components come out as NaNs.
    pub fn normalize(&self) -> (v: Float3)
        ensures
            v == self.normalize_spec(),
    {
        *self / self.length()
    }

    pub fn reflect(&self, normal: Float3) -> (v: Float3)
        ensures
            v == self.reflect_spec(normal),
    {
        *self - Scalar::two() * self.dot(normal) * normal
    }

    pub fn refract(&self, normal: Float3, ni_over_nt: Scalar) -> (r: Option<Float3>)
        ensures
            r == self.refract_spec(normal, ni_over_nt),
    {
        let uv = self.normalize();
        let dt = uv.dot(normal);
        let d = Scalar::one() - ni_over_nt * ni_over_nt * (Scalar::one() - dt * dt);
        if Scalar::zero().lt(d) {
            Some(ni_over_nt.neg() * (uv - normal * dt) - normal * d.sqrt())
        } else {
            None
        }
    }

    pub fn lerp(&self, v: Float3, t: Scalar) -> (r: Float3)
        ensures
            r == self.lerp_spec(v, t),
    {
        *self + (v - *self) * t
    }

    pub fn add_assign(&mut self, rhs: Float3)
        ensures
            *final(self) == old(self).add_spec(rhs),
    {
        *self = *self + rhs;
    }

    pub fn sub_assign(&mut self, rhs: Float3)
        ensures
            *final(self) == old(self).sub_spec(rhs),
    {
        *self = *self - rhs;
    }

    pub fn mul_assign(&mut self, rhs: Scalar)
        ensures
            *final(self) == old(self).scale_spec(rhs),
    {
        *self = *self * rhs;
    }

    pub fn div_assign(&mut self, rhs: Scalar)
        ensures
            *final(self) == old(self).div_spec(rhs),
    {
        *self = *self / rhs;
    }
}

impl core::ops::Add<Float3> for Float3 {
    type Output = Float3;

    fn add(self, rhs: Float3) -> (v: Float3) {
        Float3 { x: self.x + rhs.x, y: self.y + rhs.y, z: self.z + rhs.z }
    }
}

impl AddSpecImpl<Float3> for Float3 {
    open spec fn obeys_add_spec() -> bool {
        true
    }

    open spec fn add_req(self, rhs: Float3) -> bool {
        true
    }

    open spec fn add_spec(self, rhs: Float3) -> Float3 {
        Float3::add_spec(self, rhs)
    }
}

impl core::ops::Sub<Float3> for Float3 {
    type Output = Float3;

    fn sub(self, rhs: Float3) -> (v: Float3) {
        Float3 { x: self.x - rhs.x, y: self.y - rhs.y, z: self.z - rhs.z }
    }
}

impl SubSpecImpl<Float3> for Float3 {
    open spec fn obeys_sub_spec() -> bool {
        true
    }

    open spec fn sub_req(self, rhs: Float3) -> bool {
        true
    }

    open spec fn sub_spec(self, rhs: Float3) -> Float3 {
        Float3::sub_spec(self, rhs)
    }
}

impl core::ops::Mul<Float3> for Float3 {
    type Output = Float3;

    fn mul(self, rhs: Float3) -> (v: Float3) {
        Float3 { x: self.x * rhs.x, y: self.y * rhs.y, z: self.z * rhs.z }
    }
}

impl MulSpecImpl<Float3> for Float3 {
    open spec fn obeys_mul_spec() -> bool {
        true
    }

    open spec fn mul_req(self, rhs: Float3) -> bool {
        true
    }

    open spec fn mul_spec(self, rhs: Float3) -> Float3 {
        Float3::mul_spec(self, rhs)
    }
}

impl core::ops::Mul<Scalar> for Float3 {
    type Output = Float3;

    fn mul(self, rhs: Scalar) -> (v: Float3) {
        Float3 { x: self.x * rhs, y: self.y * rhs, z: self.z * rhs }
    }
}

impl MulSpecImpl<Scalar> for Float3 {
    open spec fn obeys_mul_spec() -> bool {
        true
    }

    open spec fn mul_req(self, rhs: Scalar) -> bool {
        true
    }

    open spec fn mul_spec(self, rhs: Scalar) -> Float3 {
        self.scale_spec(rhs)
    }
}

impl core::ops::Mul<Float3> for Scalar {
    type Output = Float3;

    fn mul(self, rhs: Float3) -> (v: Float3) {
        Float3 { x: rhs.x * self, y: rhs.y * self, z: rhs.z * self }
    }
}

impl MulSpecImpl<Float3> for Scalar {
    open spec fn obeys_mul_spec() -> bool {
        true
    }

    open spec fn mul_req(self, rhs: Float3) -> bool {
        true
    }

    open spec fn mul_spec(self, rhs: Float3) -> Float3 {
        rhs.scale_spec(self)
    }
}

impl core::ops::Div<Scalar> for Float3 {
    type Output = Float3;

    fn div(self, rhs: Scalar) -> (v: Float3) {
        Float3 { x: self.x / rhs, y: self.y / rhs, z: self.z / rhs }
    }
}

impl DivSpecImpl<Scalar> for Float3 {
    open spec fn obeys_div_spec() -> bool {
        true
    }

    open spec fn div_req(self, rhs: Scalar) -> bool {
        true
    }

    open spec fn div_spec(self, rhs: Scalar) -> Float3 {
        Float3::div_spec(self, rhs)
    }
}

impl Scalar {
    /// A product does not depend on the order of its factors.
    pub proof fn lemma_mul_commutes(self, other: Scalar)
        ensures
            self.mul_spec(other) == other.mul_spec(self),
    {
        assert(self.weight() * other.weight() == other.weight() * self.weight())
            by (nonlinear_arith);
    }
}

impl Float3 {
    /// The dot product does not depend on the order of the two vectors, and
    /// the squared length of a vector is its dot product with itself.
    pub proof fn lemma_dot_commutes(self, rhs: Float3)
        ensures
            self.dot_spec(rhs) == rhs.dot_spec(self),
            self.length_squared_spec() == self.dot_spec(self),
    {
        self.x.lemma_mul_commutes(rhs.x);
        self.y.lemma_mul_commutes(rhs.y);
        self.z.lemma_mul_commutes(rhs.z);
    }
}

impl Float3 {
    /// No component is an infinity or a NaN.
    pub open spec fn is_finite_spec(self) -> bool {
        self.x.is_finite_spec() && self.y.is_finite_spec() && self.z.is_finite_spec()
    }

    /// A vector added and taken away again leaves the other vector, within
    /// the rounding of the two steps, in every component.
    pub proof fn lemma_add_then_sub(self, rhs: Float3)
        requires
            self.is_finite_spec(),
            rhs.is_finite_spec(),
            self.add_spec(rhs).is_finite_spec(),
            self.add_spec(rhs).sub_spec(rhs).is_finite_spec(),
        ensures
            ({
                let sum = self.add_spec(rhs);
                let back = sum.sub_spec(rhs);
                let p = vstd::arithmetic::power2::pow2(53) as int;
                &&& -(sum.x.weight() + back.x.weight() + p) <= (back.x.numerator()
                    - self.x.numerator()) * p <= sum.x.weight() + back.x.weight() + p
                &&& -(sum.y.weight() + back.y.weight() + p) <= (back.y.numerator()
                    - self.y.numerator()) * p <= sum.y.weight() + back.y.weight() + p
                &&& -(sum.z.weight() + back.z.weight() + p) <= (back.z.numerator()
                    - self.z.numerator()) * p <= sum.z.weight() + back.z.weight() + p
            }),
    {
        self.x.lemma_add_then_sub(rhs.x);
        self.y.lemma_add_then_sub(rhs.y);
        self.z.lemma_add_then_sub(rhs.z);
    }
}

impl Float3 {
    /// The squared length of a vector is not negative.
    pub proof fn lemma_length_squared_not_negative(self)
        ensures
            self.dot_spec(self).not_negative(),
            self.length_squared_spec().not_negative(),
    {
        let zero = Scalar::zero();
        self.x.lemma_square_not_negative();
        self.y.lemma_square_not_negative();
        self.z.lemma_square_not_negative();
        let a = zero.add_spec(self.x.mul_spec(self.x));
        zero.lemma_add_not_negative(self.x.mul_spec(self.x));
        a.lemma_add_not_negative(self.y.mul_spec(self.y));
        a.add_spec(self.y.mul_spec(self.y)).lemma_add_not_negative(self.z.mul_spec(self.z));
    }
}

} // verus!

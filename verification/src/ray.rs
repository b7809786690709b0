//! Rays.

use vstd::prelude::*;
use crate::float3::Point3;
use crate::float3::Vec3;
use crate::scalar::Scalar;

verus! {

/// A half-line: where it starts and which way it goes. The direction need not
/// have length one.
#[derive(Clone, Copy, Debug)]
pub struct Ray {
    pub origin: Point3,
    pub direction: Vec3,
}

impl Ray {
    /// The point at the parameter `t`: `origin + t * direction`.
    pub open spec fn at_spec(self, t: Scalar) -> Point3 {
        self.origin.add_spec(self.direction.scale_spec(t))
    }

    pub fn new(origin: Point3, direction: Vec3) -> (ray: Ray)
        ensures
            ray.origin == origin,
            ray.direction == direction,
    {
        Ray { origin, direction }
    }

    pub fn at(&self, t: Scalar) -> (p: Point3)
        ensures
            p == self.at_spec(t),
    {
        self.origin + t * self.direction
    }
}

} // verus!

//! The integration along a path: what follows each intersection, and why a
//! path ends.

use vstd::prelude::*;
use crate::float3::Color;
use crate::float3::Float3;
use crate::float3::Vec3;
use crate::ray::Ray;
use crate::scalar::Scalar;
use crate::shape::crossings;
use crate::shape::misses;
use crate::shape::nearest;
use crate::shape::lemma_nearest_unique;
use crate::shape::HitInfo;
use crate::shape::Nearest;
use crate::shape::ShapeList;

verus! {

/// The bit pattern of the lower end of the interval in which a path looks for
/// its next hit: the number nearest to 0.001. It keeps a scattered ray from
/// hitting the surface that it leaves.
pub const T_MIN_BITS: u64 = 0x3f50_624d_d2f1_a9fc;

/// The bit pattern of the upper end of that interval: the largest finite
/// number.
pub const T_MAX_BITS: u64 = 0x7fef_ffff_ffff_ffff;

/// The lower end of the interval in which a path looks for its next hit.
pub open spec fn t_min_spec() -> Scalar {
    Scalar { bits: T_MIN_BITS }
}

/// The upper end of the interval in which a path looks for its next hit.
pub open spec fn t_max_spec() -> Scalar {
    Scalar { bits: T_MAX_BITS }
}

#[verifier::when_used_as_spec(t_min_spec)]
pub fn t_min() -> (t: Scalar)
    ensures
        t == t_min_spec(),
{
    Scalar { bits: T_MIN_BITS }
}

#[verifier::when_used_as_spec(t_max_spec)]
pub fn t_max() -> (t: Scalar)
    ensures
        t == t_max_spec(),
{
    Scalar { bits: T_MAX_BITS }
}

/// What a path does once its ray has been intersected with the scene.
#[derive(Clone, Copy, Debug)]
pub enum Step {
    /// The ray left the scene: the path ends with the colour of the
    /// background in the ray's direction.
    Background,
    /// The ray hit a surface with no bounce left: the path ends with black.
    Black,
    /// The ray hit a surface: the material at `hit` is asked to scatter it.
    /// Where it does, the path goes on along the scattered ray with `depth`
    /// bounces left, and what comes back is multiplied by the albedo. Where
    /// it absorbs the ray, the path ends with black.
    Scatter { hit: HitInfo, depth: usize },
}

/// One step of the integration: `ray` is intersected with `world` inside the
/// interval from 0.001 to the largest number, and `depth` is the number of
/// bounces that are left.
///
/// A ray that hits nothing gives the background whatever the depth. A ray
/// that hits with no depth left gives black, and no material is asked.
pub fn step(world: &ShapeList, ray: &Ray, depth: usize) -> (step: Step)
    ensures
        step is Background <==> misses(crossings(world@, *ray), t_min(), t_max()),
        step is Black <==> !misses(crossings(world@, *ray), t_min(), t_max()) && depth == 0,
        step matches Step::Scatter { hit, depth: rest } ==> {
            &&& depth > 0
            &&& rest == depth - 1
            &&& exists|n: Nearest| #[trigger]
                nearest(crossings(world@, *ray), n, t_min(), t_max()) && hit
                    == world@[n.index as int].info_spec(*ray, n.t)
        },
{
    match world.hit(ray, t_min(), t_max()) {
        None => Step::Background,
        Some(hit) => {
            proof {
                let n = choose|n: Nearest| #[trigger]
                    nearest(crossings(world@, *ray), n, t_min(), t_max()) && hit
                        == world@[n.index as int].info_spec(*ray, n.t);
                lemma_nearest_unique(crossings(world@, *ray), n, n, t_min(), t_max());
            }
            if depth > 0 {
                Step::Scatter { hit, depth: (depth - 1) as usize }
            } else {
                Step::Black
            }
        },
    }
}

/// The bit pattern of one half.
pub const HALF_BITS: u64 = 0x3fe0_0000_0000_0000;

/// The bit pattern of the number nearest to 0.7.
pub const SKY_GREEN_BITS: u64 = 0x3fe6_6666_6666_6666;

/// The colour of the sky straight up: `(0.5, 0.7, 1.0)`.
pub open spec fn sky() -> Color {
    Float3 {
        x: Scalar { bits: HALF_BITS },
        y: Scalar { bits: SKY_GREEN_BITS },
        z: Scalar::one(),
    }
}

/// The colour of the background in the direction `d`: the gradient from
/// white to the sky's blue at `0.5 * (y + 1)`, with `y` the second component
/// of the direction normalized. A direction that has no length, or none that
/// is a number, sees black.
pub open spec fn background_spec(d: Vec3) -> Color {
    let y = d.normalize_spec().y;
    if y.is_nan_spec() {
        Float3::zero()
    } else {
        Float3::one().lerp_spec(
            sky(),
            Scalar { bits: HALF_BITS }.mul_spec(y.add_spec(Scalar::one())),
        )
    }
}

#[verifier::when_used_as_spec(background_spec)]
pub fn background(d: Vec3) -> (color: Color)
    ensures
        color == background_spec(d),
{
    let y = d.normalize().y();
    if y.is_nan() {
        Float3::zero()
    } else {
        let t = Scalar { bits: HALF_BITS } * (y + Scalar::one());
        let sky = Float3::new(
            Scalar { bits: HALF_BITS },
            Scalar { bits: SKY_GREEN_BITS },
            Scalar::one(),
        );
        Float3::one().lerp(sky, t)
    }
}

/// What one call of the integration meets: whether the ray hits the scene and, where
/// the material is asked, whether it scatters the ray.
pub struct Encounter {
    pub hit: bool,
    pub scattered: bool,
}

/// The number of calls of the integration that a path makes, counted from a call with
/// `depth` bounces left, where `met(k)` is what the call after `k` bounces
/// meets. The path goes on after a call exactly when the ray hit, a bounce
/// was left and the material scattered.
pub open spec fn calls(met: spec_fn(nat) -> Encounter, k: nat, depth: nat) -> nat
    decreases depth,
{
    if met(k).hit && depth > 0 && met(k).scattered {
        1 + calls(met, k + 1, (depth - 1) as nat)
    } else {
        1
    }
}

/// Whatever the scene and the materials do, a path that starts with `depth`
/// bounces ends within `depth + 1` calls of the integration.
pub proof fn lemma_path_ends(met: spec_fn(nat) -> Encounter, k: nat, depth: nat)
    ensures
        1 <= calls(met, k, depth) <= depth + 1,
        !met(k).hit || depth == 0 ==> calls(met, k, depth) == 1,
    decreases depth,
{
    if met(k).hit && depth > 0 && met(k).scattered {
        lemma_path_ends(met, k + 1, (depth - 1) as nat);
    }
}

} // verus!

//! Scattering: what leaves a surface when a ray arrives.

use vstd::prelude::*;
use vstd::arithmetic::power2::pow2;
use core::ops::Neg;
use crate::float3::Color;
use crate::float3::Float3;
use crate::float3::Vec3;
use crate::random::stands_for;
use crate::ray::Ray;
use crate::scalar::weight_of;
use crate::scalar::Scalar;
use crate::shape::HitInfo;
use crate::texture::Texture;

verus! {

/// The outcome of scattering: the ray that leaves, and the colour by which
/// the light that comes back along it is multiplied.
#[derive(Clone, Copy, Debug)]
pub struct ScatterInfo {
    pub ray: Ray,
    pub albedo: Color,
}

impl ScatterInfo {
    pub fn new(ray: Ray, albedo: Color) -> (info: ScatterInfo)
        ensures
            info.ray == ray,
            info.albedo == albedo,
    {
        ScatterInfo { ray, albedo }
    }

    /// The ray that leaves the hit point in `direction`, with `albedo`.
    pub open spec fn leaving(hit: HitInfo, direction: Vec3, albedo: Color) -> ScatterInfo {
        ScatterInfo { ray: Ray { origin: hit.p, direction }, albedo }
    }
}

/// A material of a closed set.
#[derive(Debug)]
pub enum Material {
    Lambertian(Lambertian),
    Metal(Metal),
    Dielectric(Dielectric),
}

/// A matte surface.
#[derive(Debug)]
pub struct Lambertian {
    pub albedo: Texture,
}

/// A mirror, blurred by `fuzz`, which lies between 0 and 1.
#[derive(Debug)]
pub struct Metal {
    pub albedo: Texture,
    pub fuzz: Scalar,
}

/// A clear medium with the refractive index `ri`.
#[derive(Clone, Copy, Debug)]
pub struct Dielectric {
    pub ri: Scalar,
}

impl Lambertian {
    pub fn new(albedo: Texture) -> (material: Lambertian)
        ensures
            material.albedo == albedo,
    {
        Lambertian { albedo }
    }

    /// A matte surface absorbs nothing. The ray leaves the hit point towards
    /// `p + n + in_unit_sphere`, and carries the texture's colour `albedo`.
    pub open spec fn scatter_spec(hit: HitInfo, in_unit_sphere: Vec3, albedo: Color) -> Option<
        ScatterInfo,
    > {
        let target = hit.p.add_spec(hit.n).add_spec(in_unit_sphere);
        Some(ScatterInfo::leaving(hit, target.sub_spec(hit.p), albedo))
    }

    /// Scatters off a matte surface with the random point given.
    /// `in_unit_sphere` is a point of the unit sphere and `albedo` the colour
    /// of the material's texture at the hit.
    pub fn scatter_with(hit: &HitInfo, in_unit_sphere: Vec3, albedo: Color) -> (r: Option<
        ScatterInfo,
    >)
        ensures
            r == Lambertian::scatter_spec(*hit, in_unit_sphere, albedo),
            r is Some,
    {
        let target = hit.p + hit.n + in_unit_sphere;
        Some(ScatterInfo::new(Ray::new(hit.p, target - hit.p), albedo))
    }

    /// Scatters off a matte surface. One point of the unit sphere is drawn.
    /// `albedo` is the colour of the material's texture at the hit.
    pub fn scatter(hit: &HitInfo, albedo: Color) -> (r: Option<ScatterInfo>)
        ensures
            r is Some,
            exists|p: Vec3| #[trigger]
                p.length_squared_spec().lt_spec(Scalar::one()) && r == Lambertian::scatter_spec(
                    *hit,
                    p,
                    albedo,
                ),
    {
        let p = Float3::random_in_unit_sphere();
        Lambertian::scatter_with(hit, p, albedo)
    }
}

impl Metal {
    pub fn new(albedo: Texture, fuzz: Scalar) -> (material: Metal)
        ensures
            material.albedo == albedo,
            material.fuzz == fuzz,
    {
        Metal { albedo, fuzz }
    }

    /// The direction in which a ray leaves: its direction normalized and
    /// mirrored at the surface, plus `fuzz * in_unit_sphere`.
    pub open spec fn reflected_spec(self, ray: Ray, hit: HitInfo, in_unit_sphere: Vec3) -> Vec3 {
        ray.direction.normalize_spec().reflect_spec(hit.n).add_spec(
            in_unit_sphere.scale_spec(self.fuzz),
        )
    }

    /// The ray leaves along the blurred reflection where that points away
    /// from the surface: where its dot product with the normal is positive.
    /// Where it is zero, negative or a NaN the ray is absorbed.
    pub open spec fn scatter_spec(
        self,
        ray: Ray,
        hit: HitInfo,
        in_unit_sphere: Vec3,
        albedo: Color,
    ) -> Option<ScatterInfo> {
        let reflected = self.reflected_spec(ray, hit, in_unit_sphere);
        if Scalar::zero().lt_spec(reflected.dot_spec(hit.n)) {
            Some(ScatterInfo::leaving(hit, reflected, albedo))
        } else {
            None
        }
    }

    /// Scatters off metal. One point of the unit sphere is drawn. `albedo`
    /// is the colour of the material's texture at the hit.
    pub fn scatter(&self, ray: &Ray, hit: &HitInfo, albedo: Color) -> (r: Option<ScatterInfo>)
        ensures
            exists|p: Vec3| #[trigger]
                p.length_squared_spec().lt_spec(Scalar::one()) && r == self.scatter_spec(
                    *ray,
                    *hit,
                    p,
                    albedo,
                ),
    {
        let p = Float3::random_in_unit_sphere();
        self.scatter_with(ray, hit, p, albedo)
    }

    /// Scatters off metal with the random point given. `in_unit_sphere` is a
    /// point of the unit sphere and `albedo` the colour of the material's
    /// texture at the hit.
    pub fn scatter_with(
        &self,
        ray: &Ray,
        hit: &HitInfo,
        in_unit_sphere: Vec3,
        albedo: Color,
    ) -> (r: Option<ScatterInfo>)
        ensures
            r == self.scatter_spec(*ray, *hit, in_unit_sphere, albedo),
    {
        let reflected = ray.direction.normalize().reflect(hit.n) + self.fuzz * in_unit_sphere;
        if Scalar::zero().lt(reflected.dot(hit.n)) {
            Some(ScatterInfo::new(Ray::new(hit.p, reflected), albedo))
        } else {
            None
        }
    }
}

/// Which side of a clear surface a ray arrives at.
#[derive(Clone, Copy, Debug)]
pub struct Interface {
    /// The ray is inside the medium and about to leave it.
    pub leaving: bool,
    /// The normal on the side that the ray comes from.
    pub outward_normal: Vec3,
    /// The refractive index on the side that the ray comes from, divided by
    /// the one beyond.
    pub ni_over_nt: Scalar,
    /// The cosine that the reflectance is computed from.
    pub cosine: Scalar,
}

impl Dielectric {
    pub fn new(ri: Scalar) -> (material: Dielectric)
        ensures
            material.ri == ri,
    {
        Dielectric { ri }
    }

    /// The fifth power, as `x * ((x * x) * (x * x))`.
    pub open spec fn fifth_spec(x: Scalar) -> Scalar {
        x.mul_spec(x.squared().mul_spec(x.squared()))
    }

    /// Schlick's approximation of the reflectance:
    /// `r0 + (1 - r0) * (1 - cosine)^5` with `r0 = ((1 - ri) / (1 + ri))^2`.
    pub open spec fn schlick_spec(cosine: Scalar, ri: Scalar) -> Scalar {
        let r0 = Scalar::one().sub_spec(ri).div_spec(Scalar::one().add_spec(ri)).squared();
        r0.add_spec(
            Scalar::one().sub_spec(r0).mul_spec(
                Dielectric::fifth_spec(Scalar::one().sub_spec(cosine)),
            ),
        )
    }

    pub fn schlick(cosine: Scalar, ri: Scalar) -> (r: Scalar)
        ensures
            r == Dielectric::schlick_spec(cosine, ri),
    {
        let q = (Scalar::one() - ri) / (Scalar::one() + ri);
        let r0 = q * q;
        let x = Scalar::one() - cosine;
        let x2 = x * x;
        r0 + (Scalar::one() - r0) * (x * (x2 * x2))
    }

    /// The side at which `ray` arrives. With `dot` the dot product of its
    /// direction and the normal: where `dot` is positive the ray is leaving
    /// the medium, the normal is turned round, the ratio of the indices is
    /// `ri` and the cosine `ri * dot / length`; otherwise the ratio is
    /// `1 / ri` and the cosine `-dot / length`.
    pub open spec fn interface_spec(self, ray: Ray, hit: HitInfo) -> Interface {
        let dot = ray.direction.dot_spec(hit.n);
        let length = ray.direction.length_spec();
        if Scalar::zero().lt_spec(dot) {
            Interface {
                leaving: true,
                outward_normal: hit.n.negated(),
                ni_over_nt: self.ri,
                cosine: self.ri.mul_spec(dot).div_spec(length),
            }
        } else {
            Interface {
                leaving: false,
                outward_normal: hit.n,
                ni_over_nt: Scalar::one().div_spec(self.ri),
                cosine: dot.negated().div_spec(length),
            }
        }
    }

    pub fn interface(&self, ray: &Ray, hit: &HitInfo) -> (side: Interface)
        ensures
            side == self.interface_spec(*ray, *hit),
    {
        let dot = ray.direction.dot(hit.n);
        if Scalar::zero().lt(dot) {
            Interface {
                leaving: true,
                outward_normal: hit.n.neg(),
                ni_over_nt: self.ri,
                cosine: self.ri * dot / ray.direction.length(),
            }
        } else {
            Interface {
                leaving: false,
                outward_normal: hit.n,
                ni_over_nt: Scalar::one() / self.ri,
                cosine: dot.neg() / ray.direction.length(),
            }
        }
    }

    /// The refracted direction, or none on total internal reflection.
    pub open spec fn refracted_spec(self, ray: Ray, hit: HitInfo) -> Option<Vec3> {
        let side = self.interface_spec(ray, hit);
        ray.direction.negated().refract_spec(side.outward_normal, side.ni_over_nt)
    }

    /// A clear surface absorbs nothing and tints nothing. The ray is
    /// refracted where the geometry allows it and the draw `sample` exceeds
    /// the reflectance, and reflected otherwise; the colour is one in every
    /// channel.
    pub open spec fn scatter_spec(self, ray: Ray, hit: HitInfo, sample: Scalar) -> Option<
        ScatterInfo,
    > {
        let side = self.interface_spec(ray, hit);
        let reflectance = Dielectric::schlick_spec(side.cosine, self.ri);
        Some(
            ScatterInfo::leaving(
                hit,
                if self.refracted_spec(ray, hit) is Some && reflectance.lt_spec(sample) {
                    self.refracted_spec(ray, hit)->0
                } else {
                    ray.direction.reflect_spec(hit.n)
                },
                Float3::one(),
            ),
        )
    }

    /// Scatters at a clear surface with the draw given.
    pub fn scatter_with(&self, ray: &Ray, hit: &HitInfo, sample: Scalar) -> (r: Option<
        ScatterInfo,
    >)
        ensures
            r == self.scatter_spec(*ray, *hit, sample),
            r is Some,
    {
        let reflected = ray.direction.reflect(hit.n);
        let side = self.interface(ray, hit);
        if let Some(refracted) = ray.direction.neg().refract(side.outward_normal, side.ni_over_nt) {
            if Dielectric::schlick(side.cosine, self.ri).lt(sample) {
                return Some(ScatterInfo::new(Ray::new(hit.p, refracted), Float3::one()));
            }
        }
        Some(ScatterInfo::new(Ray::new(hit.p, reflected), Float3::one()))
    }

    /// Scatters at a clear surface. One number is drawn from `[0, 1)`, and
    /// only where the geometry allows refraction; on total internal
    /// reflection the ray is reflected and nothing is drawn.
    pub fn scatter(&self, ray: &Ray, hit: &HitInfo) -> (r: Option<ScatterInfo>)
        ensures
            r is Some,
            self.refracted_spec(*ray, *hit) is None ==> r == self.scatter_spec(
                *ray,
                *hit,
                Scalar::zero(),
            ),
            self.refracted_spec(*ray, *hit) is Some ==> exists|sample: Scalar, w: u64|
                #[trigger] stands_for(sample, w) && r == self.scatter_spec(*ray, *hit, sample),
    {
        let reflected = ray.direction.reflect(hit.n);
        let side = self.interface(ray, hit);
        if let Some(refracted) = ray.direction.neg().refract(side.outward_normal, side.ni_over_nt) {
            let sample = Float3::random_full().x();
            let r = if Dielectric::schlick(side.cosine, self.ri).lt(sample) {
                Some(ScatterInfo::new(Ray::new(hit.p, refracted), Float3::one()))
            } else {
                Some(ScatterInfo::new(Ray::new(hit.p, reflected), Float3::one()))
            };
            proof {
                let w = choose|w: u64| stands_for(sample, w);
                assert(stands_for(sample, w) && r == self.scatter_spec(*ray, *hit, sample));
            }
            return r;
        }
        Some(ScatterInfo::new(Ray::new(hit.p, reflected), Float3::one()))
    }
}

impl Material {
    /// `outcome` is an outcome of scattering `ray` at `hit`, with the sines
    /// that `sin` gives: for a matte surface and for metal with some point of
    /// the unit sphere and a colour of the texture, for a clear surface with
    /// some draw.
    pub open spec fn scatters<F: Fn(Scalar) -> Scalar>(
        self,
        ray: Ray,
        hit: HitInfo,
        sin: F,
        outcome: Option<ScatterInfo>,
    ) -> bool {
        match self {
            Material::Lambertian(m) => exists|point: Vec3, albedo: Color| #[trigger]
                Lambertian::scatter_spec(hit, point, albedo) == outcome
                    && point.length_squared_spec().lt_spec(Scalar::one()) && m.albedo.has_value(
                    hit.p,
                    sin,
                    albedo,
                ),
            Material::Metal(m) => exists|point: Vec3, albedo: Color| #[trigger]
                m.scatter_spec(ray, hit, point, albedo) == outcome
                    && point.length_squared_spec().lt_spec(Scalar::one()) && m.albedo.has_value(
                    hit.p,
                    sin,
                    albedo,
                ),
            Material::Dielectric(m) => exists|sample: Scalar, w: u64| #[trigger]
                stands_for(sample, w) && m.scatter_spec(ray, hit, sample) == outcome,
        }
    }

    /// Scatters `ray` at `hit`, or absorbs it. What is random is drawn here;
    /// the sine is the caller's.
    pub fn scatter<F: Fn(Scalar) -> Scalar>(&self, ray: &Ray, hit: &HitInfo, sin: &F) -> (r: Option<
        ScatterInfo,
    >)
        requires
            forall|x: Scalar| call_requires(*sin, (x,)),
        ensures
            self.scatters(*ray, *hit, *sin, r),
    {
        match self {
            Material::Lambertian(m) => {
                let albedo = m.albedo.value(hit.u, hit.v, hit.p, sin);
                let r = Lambertian::scatter(hit, albedo);
                proof {
                    let p = choose|p: Vec3| #[trigger]
                        p.length_squared_spec().lt_spec(Scalar::one()) && r
                            == Lambertian::scatter_spec(*hit, p, albedo);
                    assert(Lambertian::scatter_spec(*hit, p, albedo) == r);
                }
                r
            },
            Material::Metal(m) => {
                let albedo = m.albedo.value(hit.u, hit.v, hit.p, sin);
                let r = m.scatter(ray, hit, albedo);
                proof {
                    let p = choose|p: Vec3| #[trigger]
                        p.length_squared_spec().lt_spec(Scalar::one()) && r == m.scatter_spec(
                            *ray,
                            *hit,
                            p,
                            albedo,
                        );
                    assert(m.scatter_spec(*ray, *hit, p, albedo) == r);
                }
                r
            },
            Material::Dielectric(m) => {
                let r = m.scatter(ray, hit);
                proof {
                    if m.refracted_spec(*ray, *hit) is None {
                        let zero = Scalar::zero();
                        assert(weight_of(0) == 0);
                        assert(0 * pow2(1021) == 0);
                        assert(stands_for(zero, 0));
                    }
                }
                r
            },
        }
    }
}

} // verus!

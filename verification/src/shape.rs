//! Intersection: where a ray hits a sphere, and which member of an aggregate
//! it hits first.

use vstd::prelude::*;
use core::ops::Neg;
use crate::float3::Point3;
use crate::float3::Vec3;
use crate::ray::Ray;
use crate::scalar::Scalar;

verus! {

/// What a `Crossing` holds.
pub struct CrossingView {
    pub discriminant: Scalar,
    pub near: Scalar,
    pub far: Scalar,
}

impl CrossingView {
    /// The larger root is not below the smaller one.
    pub open spec fn ordered(self) -> bool {
        !self.far.lt_spec(self.near)
    }

    /// The line meets the surface in two points: the discriminant is positive.
    pub open spec fn has_roots(self) -> bool {
        Scalar::zero().lt_spec(self.discriminant)
    }

    /// `t` is a ray parameter at which the line meets the surface, and it lies
    /// strictly inside the interval from `t0` to `t1`.
    pub open spec fn meets(self, t: Scalar, t0: Scalar, t1: Scalar) -> bool {
        self.has_roots() && (t == self.near || t == self.far) && t.between_spec(t0, t1)
    }

    /// The parameter of the hit inside the interval from `t0` to `t1`: the
    /// smaller root where it lies inside, else the larger root where that one
    /// does, else none. None either where the discriminant is not positive.
    pub open spec fn hit(self, t0: Scalar, t1: Scalar) -> Option<Scalar> {
        if !self.has_roots() {
            None
        } else if self.near.between_spec(t0, t1) {
            Some(self.near)
        } else if self.far.between_spec(t0, t1) {
            Some(self.far)
        } else {
            None
        }
    }

    /// A hit is the least of the roots inside the interval, and there is a
    /// hit as soon as a root lies inside.
    pub proof fn lemma_hit_is_least(self, t: Scalar, t0: Scalar, t1: Scalar)
        requires
            self.ordered(),
            self.meets(t, t0, t1),
        ensures
            self.hit(t0, t1) is Some,
            self.hit(t0, t1)->0.le_spec(t),
            self.meets(self.hit(t0, t1)->0, t0, t1),
    {
    }

    /// Lowering the upper end of the interval to `bound` keeps a hit that
    /// lies below `bound` and drops any other.
    pub proof fn lemma_hit_under_bound(self, t0: Scalar, t1: Scalar, bound: Scalar)
        requires
            self.ordered(),
            bound == t1 || bound.between_spec(t0, t1),
        ensures
            self.hit(t0, bound) == (if self.hit(t0, t1) is Some && self.hit(t0, t1)->0.lt_spec(
                bound,
            ) {
                self.hit(t0, t1)
            } else {
                None
            }),
    {
    }
}

/// How the line of a ray crosses the surface of a sphere: the discriminant of
/// the quadratic `|O + tD - C|^2 = r^2` in `t`, and its two roots, the smaller
/// first.
#[derive(Clone, Copy, Debug)]
pub struct Crossing {
    discriminant: Scalar,
    near: Scalar,
    far: Scalar,
}

impl View for Crossing {
    type V = CrossingView;

    closed spec fn view(&self) -> CrossingView {
        CrossingView { discriminant: self.discriminant, near: self.near, far: self.far }
    }
}

impl Crossing {
    #[verifier::type_invariant]
    spec fn roots_in_order(self) -> bool {
        !self.far.lt_spec(self.near)
    }

    /// Takes the discriminant and the two roots in either order. Where the
    /// second is below the first the two change places.
    pub fn new(discriminant: Scalar, first: Scalar, second: Scalar) -> (c: Crossing)
        ensures
            c@.discriminant == discriminant,
            c@.near == (if second.lt_spec(first) { second } else { first }),
            c@.far == (if second.lt_spec(first) { first } else { second }),
            c@.ordered(),
    {
        if second.lt(first) {
            Crossing { discriminant, near: second, far: first }
        } else {
            Crossing { discriminant, near: first, far: second }
        }
    }

    pub fn discriminant(&self) -> (d: Scalar)
        ensures
            d == self@.discriminant,
    {
        self.discriminant
    }

    pub fn near(&self) -> (t: Scalar)
        ensures
            t == self@.near,
    {
        self.near
    }

    pub fn far(&self) -> (t: Scalar)
        ensures
            t == self@.far,
    {
        self.far
    }

    /// The ray parameter at which the ray hits the sphere inside the interval
    /// from `t0` to `t1`, both ends left out.
    pub fn hit(&self, t0: Scalar, t1: Scalar) -> (r: Option<Scalar>)
        ensures
            self@.ordered(),
            r == self@.hit(t0, t1),
            r matches Some(t) ==> self@.meets(t, t0, t1),
    {
        proof {
            use_type_invariant(self);
        }
        if Scalar::zero().lt(self.discriminant) {
            if self.near.between(t0, t1) {
                return Some(self.near);
            }
            if self.far.between(t0, t1) {
                return Some(self.far);
            }
        }
        None
    }
}

/// What is known of the point where a ray hits a surface: the ray parameter
/// `t`, the point `p`, the outward normal `n` of length one, the material by
/// its handle `m`, and the surface coordinates `u` and `v`, zero where a shape
/// has none.
#[derive(Clone, Copy, Debug)]
pub struct HitInfo {
    pub t: Scalar,
    pub p: Point3,
    pub n: Vec3,
    pub m: usize,
    pub u: Scalar,
    pub v: Scalar,
}

impl HitInfo {
    pub fn new(t: Scalar, p: Point3, n: Vec3, m: usize, u: Scalar, v: Scalar) -> (hit: HitInfo)
        ensures
            hit.t == t,
            hit.p == p,
            hit.n == n,
            hit.m == m,
            hit.u == u,
            hit.v == v,
    {
        HitInfo { t, p, n, m, u, v }
    }
}

/// The nearest hit of an aggregate: which member, and at which ray parameter.
#[derive(Clone, Copy, Debug)]
pub struct Nearest {
    pub index: usize,
    pub t: Scalar,
}

/// No member has a root strictly inside the interval from `t0` to `t1`.
pub open spec fn misses(objects: Seq<CrossingView>, t0: Scalar, t1: Scalar) -> bool {
    forall|j: int, t: Scalar| 0 <= j < objects.len() ==> !#[trigger] objects[j].meets(t, t0, t1)
}

/// `n` is the nearest hit inside the interval from `t0` to `t1`: it is the
/// hit of the member `n.index` taken alone, no root of any member inside the
/// interval lies below `n.t`, and every root of an earlier member lies above.
pub open spec fn nearest(objects: Seq<CrossingView>, n: Nearest, t0: Scalar, t1: Scalar) -> bool {
    &&& n.index < objects.len()
    &&& objects[n.index as int].hit(t0, t1) == Some(n.t)
    &&& n.t.between_spec(t0, t1)
    &&& forall|j: int, t: Scalar|
        0 <= j < objects.len() && #[trigger] objects[j].meets(t, t0, t1) ==> n.t.le_spec(t) && (j
            < n.index ==> n.t.lt_spec(t))
}

/// An aggregate has at most one nearest hit, and none where it is missed.
pub proof fn lemma_nearest_unique(
    objects: Seq<CrossingView>,
    a: Nearest,
    b: Nearest,
    t0: Scalar,
    t1: Scalar,
)
    requires
        nearest(objects, a, t0, t1),
    ensures
        !misses(objects, t0, t1),
        nearest(objects, b, t0, t1) ==> a == b,
{
    assert(objects[a.index as int].meets(a.t, t0, t1));
    if nearest(objects, b, t0, t1) {
        assert(objects[b.index as int].meets(b.t, t0, t1));
    }
}

/// The bit pattern of 4.
pub const FOUR_BITS: u64 = 0x4010_0000_0000_0000;

/// A sphere: its centre, its radius and its material, by handle.
#[derive(Clone, Copy, Debug)]
pub struct Sphere {
    pub center: Point3,
    pub radius: Scalar,
    pub material: usize,
}

impl Sphere {
    /// How the line of `ray` crosses the sphere. With `oc` the ray's origin
    /// less the centre, the quadratic in `t` has `a = dot(D, D)`,
    /// `b = 2 * dot(D, oc)` and `c = dot(oc, oc) - r * r`; the discriminant is
    /// `b * b - 4 * a * c` and the roots are `(-b - sqrt(d)) / (2 * a)` and
    /// `(-b + sqrt(d)) / (2 * a)`, every step rounded.
    pub open spec fn crossing_spec(self, ray: Ray) -> CrossingView {
        let oc = ray.origin.sub_spec(self.center);
        let a = ray.direction.dot_spec(ray.direction);
        let b = Scalar::two().mul_spec(ray.direction.dot_spec(oc));
        let c = oc.dot_spec(oc).sub_spec(self.radius.mul_spec(self.radius));
        let d = b.mul_spec(b).sub_spec(Scalar { bits: FOUR_BITS }.mul_spec(a).mul_spec(c));
        let root = d.sqrt_spec();
        CrossingView {
            discriminant: d,
            near: b.negated().sub_spec(root).div_spec(Scalar::two().mul_spec(a)),
            far: b.negated().add_spec(root).div_spec(Scalar::two().mul_spec(a)),
        }
    }

    /// Of the two roots of the quadratic the first is the smaller, whatever
    /// the ray and the sphere are.
    pub proof fn lemma_roots_in_order(self, ray: Ray)
        ensures
            self.crossing_spec(ray).ordered(),
    {
        let oc = ray.origin.sub_spec(self.center);
        let a = ray.direction.dot_spec(ray.direction);
        let b = Scalar::two().mul_spec(ray.direction.dot_spec(oc));
        let c = oc.dot_spec(oc).sub_spec(self.radius.mul_spec(self.radius));
        let d = b.mul_spec(b).sub_spec(Scalar { bits: FOUR_BITS }.mul_spec(a).mul_spec(c));
        ray.direction.lemma_length_squared_not_negative();
        if !a.is_nan_spec() {
            Scalar::two().lemma_mul_not_negative_same_sign(a);
        }
        d.lemma_sqrt_not_negative();
        Scalar::lemma_roots_in_order(b.negated(), d.sqrt_spec(), Scalar::two().mul_spec(a));
    }

    /// What is known of the hit at the parameter `t`: the point on the ray,
    /// and the normal there, `(p - center) / radius`. A sphere has no
    /// surface coordinates.
    pub open spec fn info_spec(self, ray: Ray, t: Scalar) -> HitInfo {
        let p = ray.at_spec(t);
        HitInfo {
            t,
            p,
            n: p.sub_spec(self.center).div_spec(self.radius),
            m: self.material,
            u: Scalar::zero(),
            v: Scalar::zero(),
        }
    }

    /// The hit of `ray` inside the interval from `t0` to `t1`, both ends left
    /// out: at the smaller root where that lies inside, else at the larger
    /// root where that one does. A ray that starts inside the sphere so hits
    /// its far side.
    pub open spec fn hit_spec(self, ray: Ray, t0: Scalar, t1: Scalar) -> Option<HitInfo> {
        match self.crossing_spec(ray).hit(t0, t1) {
            Some(t) => Some(self.info_spec(ray, t)),
            None => None,
        }
    }

    pub fn new(center: Point3, radius: Scalar, material: usize) -> (sphere: Sphere)
        ensures
            sphere.center == center,
            sphere.radius == radius,
            sphere.material == material,
    {
        Sphere { center, radius, material }
    }

    /// Solves the quadratic of the ray and the sphere.
    pub fn crossing(&self, ray: &Ray) -> (c: Crossing)
        ensures
            c@ == self.crossing_spec(*ray),
            c@.ordered(),
    {
        let oc = ray.origin - self.center;
        let a = ray.direction.dot(ray.direction);
        let b = Scalar::two() * ray.direction.dot(oc);
        let c = oc.dot(oc) - self.radius * self.radius;
        let d = b * b - Scalar { bits: FOUR_BITS } * a * c;
        let root = d.sqrt();
        let first = (b.neg() - root) / (Scalar::two() * a);
        let second = (b.neg() + root) / (Scalar::two() * a);
        proof {
            self.lemma_roots_in_order(*ray);
        }
        Crossing::new(d, first, second)
    }

    pub fn hit(&self, ray: &Ray, t0: Scalar, t1: Scalar) -> (r: Option<HitInfo>)
        ensures
            r == self.hit_spec(*ray, t0, t1),
    {
        match self.crossing(ray).hit(t0, t1) {
            Some(t) => {
                let p = ray.at(t);
                Some(HitInfo::new(
                    t,
                    p,
                    (p - self.center) / self.radius,
                    self.material,
                    Scalar::zero(),
                    Scalar::zero(),
                ))
            },
            None => None,
        }
    }
}

/// An aggregate of spheres, in the order in which they were added.
pub struct ShapeList {
    pub objects: Vec<Sphere>,
}

impl View for ShapeList {
    type V = Seq<Sphere>;

    open spec fn view(&self) -> Seq<Sphere> {
        self.objects@
    }
}

/// How the line of `ray` crosses each member of an aggregate.
pub open spec fn crossings(objects: Seq<Sphere>, ray: Ray) -> Seq<CrossingView> {
    Seq::new(objects.len(), |i: int| objects[i].crossing_spec(ray))
}

impl ShapeList {
    pub fn new() -> (list: ShapeList)
        ensures
            list@.len() == 0,
    {
        ShapeList { objects: Vec::new() }
    }

    pub fn push(&mut self, object: Sphere)
        ensures
            final(self)@ == old(self)@.push(object),
    {
        self.objects.push(object);
    }

    /// The nearest hit of `ray` inside the interval from `t0` to `t1`, both
    /// ends left out: the hit of the member whose own hit has the least
    /// parameter, the earliest such member where two are level. That
    /// parameter is at the same time the least of all the roots, of all the
    /// members, that lie inside the interval; none is returned exactly when
    /// no root does.
    pub fn hit(&self, ray: &Ray, t0: Scalar, t1: Scalar) -> (r: Option<HitInfo>)
        ensures
            r is None ==> misses(crossings(self@, *ray), t0, t1),
            r matches Some(h) ==> exists|n: Nearest| #[trigger]
                nearest(crossings(self@, *ray), n, t0, t1) && h == self@[n.index as int].info_spec(
                    *ray,
                    n.t,
                ) && h == self@[n.index as int].hit_spec(*ray, t0, t1)->0,
    {
        let ghost all = crossings(self@, *ray);
        let mut best: Option<HitInfo> = None;
        let ghost mut found: Option<Nearest> = None;
        let mut closest = t1;
        let mut i: usize = 0;
        while i < self.objects.len()
            invariant
                i <= self.objects.len(),
                all == crossings(self@, *ray),
                all.len() == self.objects.len(),
                closest == (match found {
                    Some(n) => n.t,
                    None => t1,
                }),
                best is None == found is None,
                found is None ==> forall|j: int, t: Scalar|
                    0 <= j < i ==> !#[trigger] all[j].meets(t, t0, t1),
                found matches Some(n) ==> {
                    &&& n.index < i
                    &&& all[n.index as int].hit(t0, t1) == Some(n.t)
                    &&& n.t.between_spec(t0, t1)
                    &&& best == Some(self@[n.index as int].info_spec(*ray, n.t))
                    &&& forall|j: int, t: Scalar|
                        0 <= j < i && #[trigger] all[j].meets(t, t0, t1) ==> n.t.le_spec(t) && (j
                            < n.index ==> n.t.lt_spec(t))
                },
            decreases self.objects.len() - i,
        {
            let object = &self.objects[i];
            let next = object.hit(ray, t0, closest);
            proof {
                let c = all[i as int];
                assert(c == object.crossing_spec(*ray));
                object.lemma_roots_in_order(*ray);
                c.lemma_hit_under_bound(t0, t1, closest);
                assert forall|t: Scalar| #[trigger] c.meets(t, t0, t1) implies c.hit(t0, t1) is Some
                    && c.hit(t0, t1)->0.le_spec(t) by {
                    c.lemma_hit_is_least(t, t0, t1);
                }
                if let Some(h) = next {
                    found = Some(Nearest { index: i, t: h.t });
                }
            }
            if let Some(h) = next {
                closest = h.t;
                best = Some(h);
            }
            i += 1;
        }
        proof {
            if let Some(n) = found {
                assert(all[n.index as int] == self@[n.index as int].crossing_spec(*ray));
                assert(nearest(crossings(self@, *ray), n, t0, t1));
            }
        }
        best
    }
}

} // verus!

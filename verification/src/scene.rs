//! Scenes: spheres with the materials that they are made of, which of the
//! demonstration scenes a selector names, and the rules by which the random
//! one is filled.

use vstd::prelude::*;
use crate::builder::checkered;
use crate::builder::plain;
use crate::builder::Shape;
use crate::builder::ShapeBuilder;
use crate::float3::Point3;
use crate::material::Dielectric;
use crate::material::Lambertian;
use crate::material::Metal;
use core::ops::Neg;
use crate::material::Material;
use crate::ray::Ray;
use crate::scalar::Scalar;
use crate::shape::crossings;
use crate::shape::misses;
use crate::shape::nearest;
use crate::shape::Nearest;
use crate::shape::ShapeList;
use crate::shape::Sphere;
use crate::trace::t_max;
use crate::trace::t_min;
use crate::trace::step;
use crate::trace::background;
use crate::trace::background_spec;
use crate::float3::Color;
use crate::float3::Float3;
use crate::material::ScatterInfo;
use crate::trace::Step;

verus! {

/// A scene that can be rendered.
#[derive(Clone, Copy, Debug, PartialEq, Eq, Structural)]
pub enum Scene {
    /// A plane of small spheres of random materials round three large ones.
    Random,
    /// Three spheres: a matte one, a metal one and a checkered ground.
    Simple,
}

/// The scene that the selector `no` names: 0 the random scene, 1 the simple
/// one, any other number none.
pub open spec fn run_spec(no: i32) -> Option<Scene> {
    if no == 0 {
        Some(Scene::Random)
    } else if no == 1 {
        Some(Scene::Simple)
    } else {
        None
    }
}

/// Picks the scene to render by its selector.
#[verifier::when_used_as_spec(run_spec)]
pub fn run(no: i32) -> (scene: Option<Scene>)
    ensures
        scene == run_spec(no),
{
    if no == 0 {
        Some(Scene::Random)
    } else if no == 1 {
        Some(Scene::Simple)
    } else {
        None
    }
}

/// The material of a small sphere of the random scene.
#[derive(Clone, Copy, Debug, PartialEq, Eq, Structural)]
pub enum MaterialKind {
    Lambertian,
    Metal,
    Dielectric,
}

/// The bit pattern of the number nearest to 0.8: a draw below it makes a
/// small sphere matte.
pub const MATTE_BELOW_BITS: u64 = 0x3fe9_9999_9999_999a;

/// The bit pattern of the number nearest to 0.95: a draw below it that is not
/// below 0.8 makes a small sphere metal.
pub const METAL_BELOW_BITS: u64 = 0x3fee_6666_6666_6666;

/// The bit pattern of the number nearest to 0.9: a small sphere is placed
/// only where its centre is farther than this from the point `(4, 0.2, 0)`.
pub const CLEARANCE_BITS: u64 = 0x3fec_cccc_cccc_cccd;

/// The material that a draw `choice` from `[0, 1)` gives a small sphere:
/// matte for four in five, metal for three in twenty, glass for the rest.
pub open spec fn material_kind_spec(choice: Scalar) -> MaterialKind {
    if choice.lt_spec(Scalar { bits: MATTE_BELOW_BITS }) {
        MaterialKind::Lambertian
    } else if choice.lt_spec(Scalar { bits: METAL_BELOW_BITS }) {
        MaterialKind::Metal
    } else {
        MaterialKind::Dielectric
    }
}

#[verifier::when_used_as_spec(material_kind_spec)]
pub fn material_kind(choice: Scalar) -> (kind: MaterialKind)
    ensures
        kind == material_kind_spec(choice),
{
    if choice.lt(Scalar { bits: MATTE_BELOW_BITS }) {
        MaterialKind::Lambertian
    } else if choice.lt(Scalar { bits: METAL_BELOW_BITS }) {
        MaterialKind::Metal
    } else {
        MaterialKind::Dielectric
    }
}

/// A small sphere whose centre lies at `distance` from the point
/// `(4, 0.2, 0)` is placed where the distance exceeds 0.9.
pub open spec fn clear_of_centre_spec(distance: Scalar) -> bool {
    Scalar { bits: CLEARANCE_BITS }.lt_spec(distance)
}

#[verifier::when_used_as_spec(clear_of_centre_spec)]
pub fn clear_of_centre(distance: Scalar) -> (placed: bool)
    ensures
        placed == clear_of_centre_spec(distance),
{
    Scalar { bits: CLEARANCE_BITS }.lt(distance)
}

/// `color` is the colour `back`, tinted by `albedo`: their product channel by
/// channel.
pub open spec fn tinted(albedo: Color, back: Color, color: Color) -> bool {
    color == albedo.mul_spec(back)
}

/// A scene: an aggregate of spheres and the materials that they name by
/// handle. Every handle of the scene names one of its materials.
pub struct World {
    shapes: ShapeList,
    materials: Vec<Material>,
}

impl World {
    #[verifier::type_invariant]
    spec fn handles_are_valid(self) -> bool {
        forall|i: int|
            0 <= i < self.shapes@.len() ==> (#[trigger] self.shapes@[i]).material
                < self.materials@.len()
    }

    /// The spheres of the scene, in the order in which they were added.
    pub closed spec fn spheres(self) -> Seq<Sphere> {
        self.shapes@
    }

    /// The materials of the scene, each at its handle.
    pub closed spec fn palette(self) -> Seq<Material> {
        self.materials@
    }

    pub fn new() -> (world: World)
        ensures
            world.spheres().len() == 0,
            world.palette().len() == 0,
    {
        World { shapes: ShapeList::new(), materials: Vec::new() }
    }

    /// Adds a sphere of a material of its own. The material gets the next
    /// free handle.
    pub fn push(self, center: Point3, radius: Scalar, material: Material) -> (world: World)
        ensures
            world.palette() == self.palette().push(material),
            world.spheres() == self.spheres().push(
                Sphere { center, radius, material: self.palette().len() as usize },
            ),
    {
        proof {
            use_type_invariant(&self);
        }
        let World { mut shapes, mut materials } = self;
        let handle = materials.len();
        materials.push(material);
        shapes.push(Sphere::new(center, radius, handle));
        World { shapes, materials }
    }

    /// Adds a shape: its sphere, and its material at the next free handle.
    pub fn add(self, shape: Shape) -> (world: World)
        ensures
            world.palette() == self.palette().push(shape.material),
            world.spheres() == self.spheres().push(
                Sphere {
                    center: shape.center,
                    radius: shape.radius,
                    material: self.palette().len() as usize,
                },
            ),
    {
        self.push(shape.center, shape.radius, shape.material)
    }

    /// The aggregate of the scene's spheres.
    pub fn shapes(&self) -> (shapes: &ShapeList)
        ensures
            shapes@ == self.spheres(),
    {
        &self.shapes
    }

    /// The material at a handle, or none where the scene has no such handle.
    pub fn material(&self, handle: usize) -> (material: Option<&Material>)
        ensures
            material is Some == (handle < self.palette().len()),
            material matches Some(m) ==> *m == self.palette()[handle as int],
    {
        if handle < self.materials.len() {
            Some(&self.materials[handle])
        } else {
            None
        }
    }

    /// One step of the integration in this scene. Where the material is to
    /// be asked, the hit names a material of the scene.
    pub fn step(&self, ray: &Ray, depth: usize) -> (step: Step)
        ensures
            step is Background <==> misses(crossings(self.spheres(), *ray), t_min(), t_max()),
            step is Black <==> !misses(crossings(self.spheres(), *ray), t_min(), t_max()) && depth
                == 0,
            step matches Step::Scatter { hit, depth: rest } ==> {
                &&& depth > 0
                &&& rest == depth - 1
                &&& hit.m < self.palette().len()
                &&& exists|n: Nearest| #[trigger]
                    nearest(crossings(self.spheres(), *ray), n, t_min(), t_max()) && hit
                        == self.spheres()[n.index as int].info_spec(*ray, n.t)
            },
    {
        proof {
            use_type_invariant(self);
        }
        step(&self.shapes, ray, depth)
    }

    /// `color` is a colour that comes back along `ray` with `depth` bounces
    /// left, with the sines that `sin` gives. A ray that hits nothing brings
    /// the background. A ray that hits with no bounce left brings black. Any
    /// other ray is scattered by the material of its nearest hit: absorbed,
    /// it brings black; scattered, it brings what comes back along the
    /// scattered ray with one bounce less, multiplied by the albedo channel
    /// by channel.
    pub open spec fn colors<F: Fn(Scalar) -> Scalar>(
        self,
        ray: Ray,
        depth: nat,
        sin: F,
        color: Color,
    ) -> bool
        decreases depth,
    {
        let all = crossings(self.spheres(), ray);
        if misses(all, t_min(), t_max()) {
            color == background_spec(ray.direction)
        } else if depth == 0 {
            color == Float3::zero()
        } else {
            exists|n: Nearest, outcome: Option<ScatterInfo>| #[trigger]
                self.scattered(ray, n, sin, outcome) && match outcome {
                    None => color == Float3::zero(),
                    Some(s) => exists|back: Color| #[trigger]
                        tinted(s.albedo, back, color) && self.colors(
                            s.ray,
                            (depth - 1) as nat,
                            sin,
                            back,
                        ),
                }
        }
    }

    /// `n` is the nearest hit of `ray`, and `outcome` an outcome of
    /// scattering the ray there.
    #[verifier::opaque]
    pub open spec fn scattered<F: Fn(Scalar) -> Scalar>(
        self,
        ray: Ray,
        n: Nearest,
        sin: F,
        outcome: Option<ScatterInfo>,
    ) -> bool {
        let sphere = self.spheres()[n.index as int];
        &&& nearest(crossings(self.spheres(), ray), n, t_min(), t_max())
        &&& sphere.material < self.palette().len()
        &&& self.palette()[sphere.material as int].scatters(
            ray,
            sphere.info_spec(ray, n.t),
            sin,
            outcome,
        )
    }

    /// The four ways in which a colour comes back along a ray.
    pub proof fn lemma_colors<F: Fn(Scalar) -> Scalar>(
        self,
        ray: Ray,
        depth: nat,
        sin: F,
        n: Nearest,
        outcome: Option<ScatterInfo>,
        back: Color,
    )
        ensures
            misses(crossings(self.spheres(), ray), t_min(), t_max()) ==> self.colors(
                ray,
                depth,
                sin,
                background_spec(ray.direction),
            ),
            !misses(crossings(self.spheres(), ray), t_min(), t_max()) && depth == 0
                ==> self.colors(ray, depth, sin, Float3::zero()),
            !misses(crossings(self.spheres(), ray), t_min(), t_max()) && depth > 0
                && self.scattered(ray, n, sin, None) ==> self.colors(
                ray,
                depth,
                sin,
                Float3::zero(),
            ),
            !misses(crossings(self.spheres(), ray), t_min(), t_max()) && depth > 0
                && outcome is Some && self.scattered(ray, n, sin, outcome) && self.colors(
                outcome->0.ray,
                (depth - 1) as nat,
                sin,
                back,
            ) ==> self.colors(ray, depth, sin, outcome->0.albedo.mul_spec(back)),
    {
        if !misses(crossings(self.spheres(), ray), t_min(), t_max()) && depth > 0 && outcome is Some
            && self.scattered(ray, n, sin, outcome) && self.colors(
            outcome->0.ray,
            (depth - 1) as nat,
            sin,
            back,
        ) {
            let s = outcome->0;
            assert(outcome == Some(s));
            assert(tinted(s.albedo, back, s.albedo.mul_spec(back)));
        }
    }

    /// The colour that comes back along `ray`, with `depth` bounces left.
    /// What is random is drawn here; the sine is the caller's.
    #[verifier::rlimit(50)]
    pub fn trace<F: Fn(Scalar) -> Scalar>(&self, ray: Ray, depth: usize, sin: &F) -> (color: Color)
        requires
            forall|x: Scalar| call_requires(*sin, (x,)),
        ensures
            self.colors(ray, depth as nat, *sin, color),
            misses(crossings(self.spheres(), ray), t_min(), t_max()) ==> color == background_spec(
                ray.direction,
            ),
            !misses(crossings(self.spheres(), ray), t_min(), t_max()) && depth == 0 ==> color
                == Float3::zero(),
        decreases depth,
    {
        let ghost missed = misses(crossings(self.spheres(), ray), t_min(), t_max());
        match self.step(&ray, depth) {
            Step::Background => {
                proof {
                    self.lemma_colors(
                        ray,
                        depth as nat,
                        *sin,
                        Nearest { index: 0, t: Scalar::zero() },
                        None,
                        Float3::zero(),
                    );
                }
                background(ray.direction)
            },
            Step::Black => {
                proof {
                    self.lemma_colors(
                        ray,
                        depth as nat,
                        *sin,
                        Nearest { index: 0, t: Scalar::zero() },
                        None,
                        Float3::zero(),
                    );
                }
                Float3::zero()
            },
            Step::Scatter { hit, depth: rest } => {
                let ghost n = choose|n: Nearest| #[trigger]
                    nearest(crossings(self.spheres(), ray), n, t_min(), t_max()) && hit
                        == self.spheres()[n.index as int].info_spec(ray, n.t);
                let outcome = self.materials[hit.m].scatter(&ray, &hit, sin);
                assert(self.scattered(ray, n, *sin, outcome)) by {
                    reveal(World::scattered);
                }
                match outcome {
                    Some(s) => {
                        let back = self.trace(s.ray, rest, sin);
                        proof {
                            self.lemma_colors(ray, depth as nat, *sin, n, outcome, back);
                        }
                        s.albedo * back
                    },
                    None => {
                        proof {
                            self.lemma_colors(ray, depth as nat, *sin, n, outcome, Float3::zero());
                        }
                        Float3::zero()
                    },
                }
            },
        }
    }
}

/// The point or the colour of three decimal fractions, each a number of
/// tenths.
pub open spec fn tenths_spec(x: u32, y: u32, z: u32) -> Float3 {
    Float3 { x: Scalar::ratio(x, 10), y: Scalar::ratio(y, 10), z: Scalar::ratio(z, 10) }
}

#[verifier::when_used_as_spec(tenths_spec)]
pub fn tenths(x: u32, y: u32, z: u32) -> (v: Float3)
    ensures
        v == tenths_spec(x, y, z),
{
    Float3::new(Scalar::ratio(x, 10), Scalar::ratio(y, 10), Scalar::ratio(z, 10))
}

/// The spheres of the simple scene: a matte one at `(0.6, 0, -1)` and a metal
/// one at `(-0.6, 0, -1)`, both of radius 0.5, on a ground of radius 100 at
/// `(0, -100.5, -1)`.
pub open spec fn simple_spheres() -> Seq<Sphere> {
    seq![
        Sphere {
            center: Float3 {
                x: Scalar::ratio(6, 10),
                y: Scalar::from_u32(0),
                z: Scalar::from_u32(1).negated(),
            },
            radius: Scalar::ratio(5, 10),
            material: 0,
        },
        Sphere {
            center: Float3 {
                x: Scalar::ratio(6, 10).negated(),
                y: Scalar::from_u32(0),
                z: Scalar::from_u32(1).negated(),
            },
            radius: Scalar::ratio(5, 10),
            material: 1,
        },
        Sphere {
            center: Float3 {
                x: Scalar::from_u32(0),
                y: Scalar::ratio(1005, 10).negated(),
                z: Scalar::from_u32(1).negated(),
            },
            radius: Scalar::from_u32(100),
            material: 2,
        },
    ]
}

/// The materials of the simple scene: matte blue, metal of a light grey
/// with the blur 0.4, and a matte checker of yellow and orange with the
/// frequency 10.
pub open spec fn simple_palette() -> Seq<Material> {
    seq![
        Material::Lambertian(Lambertian { albedo: plain(tenths(1, 2, 5)) }),
        Material::Metal(Metal { albedo: plain(tenths(8, 8, 8)), fuzz: Scalar::ratio(4, 10) }),
        Material::Lambertian(
            Lambertian { albedo: checkered(tenths(8, 8, 0), tenths(8, 2, 0), Scalar::from_u32(10)) },
        ),
    ]
}

/// The simple scene.
pub fn simple_scene() -> (world: World)
    ensures
        world.spheres() == simple_spheres(),
        world.palette() == simple_palette(),
{
    let zero = Scalar::from_u32(0);
    let back = Scalar::from_u32(1).neg();
    let world = World::new();
    let world = world.add(
        ShapeBuilder::new().color_texture(tenths(1, 2, 5)).lambertian().sphere(
            Float3::new(Scalar::ratio(6, 10), zero, back),
            Scalar::ratio(5, 10),
        ).build(),
    );
    let world = world.add(
        ShapeBuilder::new().color_texture(tenths(8, 8, 8)).metal(Scalar::ratio(4, 10)).sphere(
            Float3::new(Scalar::ratio(6, 10).neg(), zero, back),
            Scalar::ratio(5, 10),
        ).build(),
    );
    let world = world.add(
        ShapeBuilder::new().checker_texture(
            tenths(8, 8, 0),
            tenths(8, 2, 0),
            Scalar::from_u32(10),
        ).lambertian().sphere(
            Float3::new(zero, Scalar::ratio(1005, 10).neg(), back),
            Scalar::from_u32(100),
        ).build(),
    );
    assert(world.spheres() =~= simple_spheres());
    assert(world.palette() =~= simple_palette());
    world
}

/// The point `(4, 0.2, 0)` from which the small spheres of the random scene
/// keep clear.
pub open spec fn centrepiece() -> Point3 {
    Float3 { x: Scalar::from_u32(4), y: Scalar::ratio(2, 10), z: Scalar::from_u32(0) }
}

/// What holds of every small sphere of the random scene: its radius is 0.2,
/// its centre lies at the height 0.2 and keeps clear of the point
/// `(4, 0.2, 0)`.
pub open spec fn small(sphere: Sphere) -> bool {
    &&& sphere.radius == Scalar::ratio(2, 10)
    &&& sphere.center.y == Scalar::ratio(2, 10)
    &&& clear_of_centre(sphere.center.sub_spec(centrepiece()).length_spec())
}

/// The ground of the random scene and its three large spheres, with the
/// handles that they have in a scene of `len` spheres.
pub open spec fn landmarks(world: World) -> bool {
    let len = world.spheres().len() as int;
    let up = Scalar::from_u32(1);
    let level = Scalar::from_u32(0);
    &&& len >= 4
    &&& world.spheres()[0] == Sphere {
        center: Float3 { x: level, y: Scalar::from_u32(1000).negated(), z: level },
        radius: Scalar::from_u32(1000),
        material: 0,
    }
    &&& world.palette()[0] == Material::Lambertian(Lambertian { albedo: plain(tenths(5, 5, 5)) })
    &&& world.spheres()[len - 3] == Sphere {
        center: Float3 { x: level, y: up, z: level },
        radius: up,
        material: (len - 3) as usize,
    }
    &&& world.palette()[len - 3] == Material::Dielectric(Dielectric { ri: Scalar::ratio(15, 10) })
    &&& world.spheres()[len - 2] == Sphere {
        center: Float3 { x: Scalar::from_u32(4).negated(), y: up, z: level },
        radius: up,
        material: (len - 2) as usize,
    }
    &&& world.palette()[len - 2] == Material::Lambertian(
        Lambertian { albedo: plain(tenths(4, 2, 1)) },
    )
    &&& world.spheres()[len - 1] == Sphere {
        center: Float3 { x: Scalar::from_u32(4), y: up, z: level },
        radius: up,
        material: (len - 1) as usize,
    }
    &&& world.palette()[len - 1] == Material::Metal(
        Metal { albedo: plain(tenths(7, 6, 5)), fuzz: level },
    )
}

/// The random scene: a ground of radius 1000, then for every cell of a grid
/// of 22 by 22 a small sphere at a random place in the cell, left out where
/// it would not keep clear of the point `(4, 0.2, 0)`, and of a material
/// that a draw picks; then three large spheres of glass, of a matte brown
/// and of metal.
pub fn random_scene() -> (world: World)
    ensures
        landmarks(world),
        world.spheres().len() <= 488,
        world.palette().len() == world.spheres().len(),
        forall|i: int|
            0 <= i < world.spheres().len() ==> (#[trigger] world.spheres()[i]).material == i,
        forall|i: int| 1 <= i < world.spheres().len() - 3 ==> small(#[trigger] world.spheres()[i]),
{
    let level = Scalar::from_u32(0);
    let up = Scalar::from_u32(1);
    let low = Scalar::ratio(2, 10);
    let mut world = World::new().add(
        ShapeBuilder::new().color_texture(tenths(5, 5, 5)).lambertian().sphere(
            Float3::new(level, Scalar::from_u32(1000).neg(), level),
            Scalar::from_u32(1000),
        ).build(),
    );
    let ghost ground = world.spheres()[0];
    let ghost earth = world.palette()[0];
    let mut au: i32 = -11;
    while au < 11
        invariant
            -11 <= au <= 11,
            1 <= world.spheres().len() <= 1 + (au + 11) * 22,
            world.palette().len() == world.spheres().len(),
            world.spheres()[0] == ground,
            world.palette()[0] == earth,
            low == Scalar::ratio(2, 10),
            level == Scalar::from_u32(0),
            up == Scalar::from_u32(1),
            forall|i: int|
                0 <= i < world.spheres().len() ==> (#[trigger] world.spheres()[i]).material == i,
            forall|i: int| 1 <= i < world.spheres().len() ==> small(#[trigger] world.spheres()[i]),
        decreases 11 - au,
    {
        let a = Scalar::from_i32(au);
        let mut bu: i32 = -11;
        while bu < 11
            invariant
                -11 <= au < 11,
                -11 <= bu <= 11,
                1 <= world.spheres().len() <= 1 + (au + 11) * 22 + (bu + 11),
                world.palette().len() == world.spheres().len(),
                world.spheres()[0] == ground,
                world.palette()[0] == earth,
                low == Scalar::ratio(2, 10),
                level == Scalar::from_u32(0),
                up == Scalar::from_u32(1),
                forall|i: int|
                    0 <= i < world.spheres().len() ==> (#[trigger] world.spheres()[i]).material
                        == i,
                forall|i: int|
                    1 <= i < world.spheres().len() ==> small(#[trigger] world.spheres()[i]),
            decreases 11 - bu,
        {
            let b = Scalar::from_i32(bu);
            let draw = Float3::random();
            let center = Float3::new(
                a + Scalar::ratio(9, 10) * draw.x,
                low,
                b + Scalar::ratio(9, 10) * draw.y,
            );
            let away = center - Float3::new(Scalar::from_u32(4), low, level);
            if clear_of_centre(away.length()) {
                let builder = match material_kind(draw.z) {
                    MaterialKind::Lambertian => ShapeBuilder::new().color_texture(
                        Float3::random() * Float3::random(),
                    ).lambertian(),
                    MaterialKind::Metal => {
                        let albedo = Float3::random_limit(Scalar::ratio(5, 10), up);
                        let fuzz = Float3::random_full().x;
                        ShapeBuilder::new().color_texture(albedo).metal(fuzz)
                    },
                    MaterialKind::Dielectric => ShapeBuilder::new().dielectric(
                        Scalar::ratio(15, 10),
                    ),
                };
                let ghost before = world.spheres();
                world = world.add(builder.sphere(center, low).build());
                assert(small(world.spheres()[before.len() as int]));
                assert(forall|i: int| 0 <= i < before.len() ==> world.spheres()[i] == before[i]);
            }
            bu = bu + 1;
        }
        au = au + 1;
    }
    let ghost small_ones = world.spheres();
    let world = world.add(
        ShapeBuilder::new().dielectric(Scalar::ratio(15, 10)).sphere(
            Float3::new(level, up, level),
            up,
        ).build(),
    );
    let world = world.add(
        ShapeBuilder::new().color_texture(tenths(4, 2, 1)).lambertian().sphere(
            Float3::new(Scalar::from_u32(4).neg(), up, level),
            up,
        ).build(),
    );
    let world = world.add(
        ShapeBuilder::new().color_texture(tenths(7, 6, 5)).metal(level).sphere(
            Float3::new(Scalar::from_u32(4), up, level),
            up,
        ).build(),
    );
    assert(forall|i: int| 0 <= i < small_ones.len() ==> world.spheres()[i] == small_ones[i]);
    world
}

} // verus!

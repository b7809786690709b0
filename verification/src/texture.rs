//! Surface colours: one colour everywhere, or a checker of two textures.

use vstd::prelude::*;
use crate::float3::Color;
use crate::float3::Float3;
use crate::float3::Point3;
use crate::scalar::Scalar;

verus! {

/// A texture: a colour for every point of a surface.
#[derive(Debug)]
pub enum Texture {
    Color(ColorTexture),
    Checker(CheckerTexture),
}

/// The same colour everywhere.
#[derive(Clone, Copy, Debug)]
pub struct ColorTexture {
    pub color: Color,
}

/// A checker in space, not on the surface: the cells have the period
/// `pi / freq` along each axis, and each cell shows one of two textures.
#[derive(Debug)]
pub struct CheckerTexture {
    pub odd: Box<Texture>,
    pub even: Box<Texture>,
    pub freq: Scalar,
}

impl ColorTexture {
    pub fn new(color: Color) -> (texture: ColorTexture)
        ensures
            texture.color == color,
    {
        ColorTexture { color }
    }

    /// The colour at surface coordinates `u`, `v` and at the point `p`: the
    /// one colour, whatever they are.
    pub fn value(&self, u: Scalar, v: Scalar, p: Point3) -> (color: Color)
        ensures
            color == self.color,
    {
        self.color
    }
}

impl CheckerTexture {
    pub fn new(odd: Texture, even: Texture, freq: Scalar) -> (texture: CheckerTexture)
        ensures
            *texture.odd == odd,
            *texture.even == even,
            texture.freq == freq,
    {
        CheckerTexture { odd: Box::new(odd), even: Box::new(even), freq }
    }

    /// The angles whose sines decide the cell of the point `p`: every
    /// coordinate times `freq`.
    pub open spec fn phases_spec(self, p: Point3) -> Float3 {
        p.scale_spec(self.freq)
    }

    /// The product of three sines, multiplied up from one, the first
    /// first.
    pub open spec fn product_spec(sines: Float3) -> Scalar {
        Scalar::one().mul_spec(sines.x).mul_spec(sines.y).mul_spec(sines.z)
    }

    /// A cell shows the odd texture where the product of the sines is
    /// negative, and the even one otherwise, a NaN included.
    pub open spec fn shows_odd(self, sines: Float3) -> bool {
        CheckerTexture::product_spec(sines).lt_spec(Scalar::zero())
    }

    /// The texture that a cell shows.
    pub open spec fn pick_spec(self, sines: Float3) -> Texture {
        if self.shows_odd(sines) {
            *self.odd
        } else {
            *self.even
        }
    }

    /// The angles whose sines decide the cell of the point `p`.
    pub fn phases(&self, p: Point3) -> (angles: Float3)
        ensures
            angles == self.phases_spec(p),
    {
        p * self.freq
    }

    /// Whether the cell of a point shows the odd texture. `sines` holds the
    /// sine of each of the point's `phases`.
    pub fn is_odd(&self, sines: Float3) -> (odd: bool)
        ensures
            odd == self.shows_odd(sines),
    {
        (Scalar::one() * sines.x * sines.y * sines.z).lt(Scalar::zero())
    }

    /// The texture that the cell of a point shows. `sines` holds the sine of
    /// each of the point's `phases`.
    pub fn pick(&self, sines: Float3) -> (texture: &Texture)
        ensures
            *texture == self.pick_spec(sines),
    {
        if self.is_odd(sines) {
            &*self.odd
        } else {
            &*self.even
        }
    }
}

/// `sines` holds, for each of the three `phases`, a sine as `sin` gives it.
pub open spec fn gives_sines<F: Fn(Scalar) -> Scalar>(sin: F, phases: Float3, sines: Float3) -> bool {
    &&& call_ensures(sin, (phases.x,), sines.x)
    &&& call_ensures(sin, (phases.y,), sines.y)
    &&& call_ensures(sin, (phases.z,), sines.z)
}

impl Texture {
    /// `color` is the colour of the texture at the point `p`, with the sines
    /// that `sin` gives. One colour has it everywhere. A checker has the
    /// colour of the texture that the cell of the point shows.
    pub open spec fn has_value<F: Fn(Scalar) -> Scalar>(
        self,
        p: Point3,
        sin: F,
        color: Color,
    ) -> bool
        decreases self,
    {
        match self {
            Texture::Color(c) => color == c.color,
            Texture::Checker(checker) => exists|sines: Float3| #[trigger]
                gives_sines(sin, checker.phases_spec(p), sines) && (if checker.shows_odd(sines) {
                    checker.odd.has_value(p, sin, color)
                } else {
                    checker.even.has_value(p, sin, color)
                }),
        }
    }

    /// The colour at surface coordinates `u`, `v` and at the point `p`. The
    /// sine is the caller's: `sin` is asked for the sines of a checker's
    /// phases.
    pub fn value<F: Fn(Scalar) -> Scalar>(&self, u: Scalar, v: Scalar, p: Point3, sin: &F) -> (color:
        Color)
        requires
            forall|x: Scalar| call_requires(*sin, (x,)),
        ensures
            self.has_value(p, *sin, color),
        decreases self,
    {
        match self {
            Texture::Color(c) => c.value(u, v, p),
            Texture::Checker(checker) => {
                let phases = checker.phases(p);
                let sines = Float3 { x: sin(phases.x), y: sin(phases.y), z: sin(phases.z) };
                assert(gives_sines(*sin, checker.phases_spec(p), sines));
                if checker.is_odd(sines) {
                    checker.odd.value(u, v, p, sin)
                } else {
                    checker.even.value(u, v, p, sin)
                }
            },
        }
    }
}

} // verus!

//! Building a sphere step by step: first a texture, then a material of it,
//! then the shape.

use vstd::prelude::*;
use crate::float3::Color;
use crate::float3::Point3;
use crate::material::Dielectric;
use crate::material::Lambertian;
use crate::material::Material;
use crate::material::Metal;
use crate::scalar::Scalar;
use crate::texture::CheckerTexture;
use crate::texture::ColorTexture;
use crate::texture::Texture;

verus! {

/// A sphere with the material that it is made of.
#[derive(Debug)]
pub struct Shape {
    pub center: Point3,
    pub radius: Scalar,
    pub material: Material,
}

/// A sphere in the making.
#[derive(Debug)]
pub struct ShapeBuilder {
    pub texture: Option<Texture>,
    pub material: Option<Material>,
    pub shape: Option<Shape>,
}

/// The texture of one colour.
pub open spec fn plain(color: Color) -> Texture {
    Texture::Color(ColorTexture { color })
}

/// The checker of two colours.
pub open spec fn checkered(odd_color: Color, even_color: Color, freq: Scalar) -> Texture {
    Texture::Checker(
        CheckerTexture { odd: Box::new(plain(odd_color)), even: Box::new(plain(even_color)), freq },
    )
}

impl ShapeBuilder {
    pub fn new() -> (builder: ShapeBuilder)
        ensures
            builder.texture is None,
            builder.material is None,
            builder.shape is None,
    {
        ShapeBuilder { texture: None, material: None, shape: None }
    }

    /// Sets the texture of one colour.
    pub fn color_texture(self, color: Color) -> (builder: ShapeBuilder)
        ensures
            builder.texture == Some(plain(color)),
            builder.material == self.material,
            builder.shape == self.shape,
    {
        ShapeBuilder {
            texture: Some(Texture::Color(ColorTexture::new(color))),
            material: self.material,
            shape: self.shape,
        }
    }

    /// Sets the checker of two colours.
    pub fn checker_texture(self, odd_color: Color, even_color: Color, freq: Scalar) -> (builder:
        ShapeBuilder)
        ensures
            builder.texture == Some(checkered(odd_color, even_color, freq)),
            builder.material == self.material,
            builder.shape == self.shape,
    {
        ShapeBuilder {
            texture: Some(
                Texture::Checker(
                    CheckerTexture::new(
                        Texture::Color(ColorTexture::new(odd_color)),
                        Texture::Color(ColorTexture::new(even_color)),
                        freq,
                    ),
                ),
            ),
            material: self.material,
            shape: self.shape,
        }
    }

    /// Makes a matte material of the texture.
    pub fn lambertian(self) -> (builder: ShapeBuilder)
        requires
            self.texture is Some,
        ensures
            builder.texture is None,
            builder.material == Some(Material::Lambertian(Lambertian { albedo: self.texture->0 })),
            builder.shape == self.shape,
    {
        ShapeBuilder {
            texture: None,
            material: Some(Material::Lambertian(Lambertian::new(self.texture.unwrap()))),
            shape: self.shape,
        }
    }

    /// Makes metal of the texture.
    pub fn metal(self, fuzz: Scalar) -> (builder: ShapeBuilder)
        requires
            self.texture is Some,
        ensures
            builder.texture is None,
            builder.material == Some(Material::Metal(Metal { albedo: self.texture->0, fuzz })),
            builder.shape == self.shape,
    {
        ShapeBuilder {
            texture: None,
            material: Some(Material::Metal(Metal::new(self.texture.unwrap(), fuzz))),
            shape: self.shape,
        }
    }

    /// Makes a clear material. It needs no texture and leaves one that is
    /// set.
    pub fn dielectric(self, ri: Scalar) -> (builder: ShapeBuilder)
        ensures
            builder.texture == self.texture,
            builder.material == Some(Material::Dielectric(Dielectric { ri })),
            builder.shape == self.shape,
    {
        ShapeBuilder {
            texture: self.texture,
            material: Some(Material::Dielectric(Dielectric::new(ri))),
            shape: self.shape,
        }
    }

    /// Makes a sphere of the material.
    pub fn sphere(self, center: Point3, radius: Scalar) -> (builder: ShapeBuilder)
        requires
            self.material is Some,
        ensures
            builder.texture == self.texture,
            builder.material is None,
            builder.shape == Some(Shape { center, radius, material: self.material->0 }),
    {
        ShapeBuilder {
            texture: self.texture,
            material: None,
            shape: Some(Shape { center, radius, material: self.material.unwrap() }),
        }
    }

    /// Hands out the shape.
    pub fn build(self) -> (shape: Shape)
        requires
            self.shape is Some,
        ensures
            shape == self.shape->0,
    {
        self.shape.unwrap()
    }
}

} // verus!

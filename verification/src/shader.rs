//! Shading policies: from interpolated attributes to a packed color.
//!
//! The pipeline is polymorphic over one capability, `pixel_color`.
//! Dispatch inside a scene goes through the closed `ShaderKind` union,
//! so that models of different policies can share one collection.

use vstd::prelude::*;
use crate::texture::{sample_spec, texture_wf, Texture};
use crate::vectors::{Vec2, Vec3};

verus! {

/// A shading policy: maps interpolated texture coordinates and normal
/// to a packed `0xAARRGGBB` color.
pub trait Shader {
    /// Whether the policy's own data is usable.
    spec fn wf(&self) -> bool;

    /// The color the policy assigns, as a specification value.
    spec fn color_spec(&self, texcoord: Vec2, normal: Vec3) -> u32;

    fn pixel_color(&self, texcoord: Vec2, normal: Vec3) -> (r: u32)
        requires
            self.wf(),
        ensures
            r == self.color_spec(texcoord, normal),
    ;
}

/// Shades every pixel the same constant white.
pub struct SolidShader;

impl SolidShader {
    pub fn new() -> (r: SolidShader)
        ensures
            r.wf(),
    {
        SolidShader
    }
}

impl Shader for SolidShader {
    open spec fn wf(&self) -> bool {
        true
    }

    open spec fn color_spec(&self, texcoord: Vec2, normal: Vec3) -> u32 {
        0xFFFFFFFFu32
    }

    fn pixel_color(&self, texcoord: Vec2, normal: Vec3) -> (r: u32) {
        0xFFFFFFFF
    }
}

/// Samples a texture at the interpolated texture coordinates.
pub struct TextureShader {
    pub texture: Texture,
}

impl TextureShader {
    pub fn new(texture: Texture) -> (r: TextureShader)
        ensures
            r.texture == texture,
            texture_wf(texture) ==> r.wf(),
    {
        TextureShader { texture }
    }
}

impl Shader for TextureShader {
    open spec fn wf(&self) -> bool {
        texture_wf(self.texture)
    }

    open spec fn color_spec(&self, texcoord: Vec2, normal: Vec3) -> u32 {
        sample_spec(self.texture, texcoord.x as int, texcoord.y as int)
    }

    fn pixel_color(&self, texcoord: Vec2, normal: Vec3) -> (r: u32) {
        self.texture.sample(texcoord.x, texcoord.y)
    }
}

/// The closed set of shading policies a model can carry.
pub enum ShaderKind {
    Solid(SolidShader),
    Textured(TextureShader),
}

impl Shader for ShaderKind {
    open spec fn wf(&self) -> bool {
        match self {
            ShaderKind::Solid(s) => s.wf(),
            ShaderKind::Textured(s) => s.wf(),
        }
    }

    open spec fn color_spec(&self, texcoord: Vec2, normal: Vec3) -> u32 {
        match self {
            ShaderKind::Solid(s) => s.color_spec(texcoord, normal),
            ShaderKind::Textured(s) => s.color_spec(texcoord, normal),
        }
    }

    fn pixel_color(&self, texcoord: Vec2, normal: Vec3) -> (r: u32) {
        match self {
            ShaderKind::Solid(s) => s.pixel_color(texcoord, normal),
            ShaderKind::Textured(s) => s.pixel_color(texcoord, normal),
        }
    }
}

} // verus!

//! Per-vertex attributes carried through the pipeline.

use vstd::prelude::*;
use crate::vectors::{Vec2, Vec3, vec2_bounded, vec3_bounded};

verus! {

/// One vertex of a triangle: camera- or model-space position, texture
/// coordinate, and surface normal. Copied by value through the
/// pipeline; clipping produces interpolated copies.
#[derive(Clone, Copy, PartialEq, Eq, Structural, Debug)]
pub struct Vertex {
    pub position: Vec3,
    pub texcoord: Vec2,
    pub normal: Vec3,
}

/// Every component of every attribute bounded by `m` in magnitude.
pub open spec fn vertex_bounded(v: Vertex, m: int) -> bool {
    vec3_bounded(v.position, m) && vec2_bounded(v.texcoord, m) && vec3_bounded(v.normal, m)
}

impl Vertex {
    pub fn new(position: Vec3, texcoord: Vec2, normal: Vec3) -> (r: Vertex)
        ensures
            r == (Vertex { position, texcoord, normal }),
    {
        Vertex { position, texcoord, normal }
    }
}

} // verus!

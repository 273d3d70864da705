//! A posed triangle mesh with its shading policy.

use vstd::prelude::*;
use crate::shader::{Shader, ShaderKind};
use crate::transform::{transform_wf, Transform};
use crate::vectors::vec3_bounded;
use crate::vertex::{vertex_bounded, Vertex};

verus! {

/// Largest magnitude allowed for model-space coordinates, attributes,
/// and model/camera positions (2^24, i.e. 256 world units): keeps all
/// camera-space values produced by the two pose changes inside the
/// clipper's working range.
pub const MODEL_MAX: i64 = 0x100_0000;

pub struct Model {
    /// A flat triangle list: every three consecutive vertices form one
    /// triangle.
    pub vertices: Vec<Vertex>,
    /// Per-triangle debug colors.
    pub colors: Vec<u32>,
    pub transform: Transform,
    pub shader: ShaderKind,
}

/// A model the pipeline can consume: a whole number of triangles,
/// bounded attributes, a well-formed pose within the world bound, and
/// a usable shading policy.
pub open spec fn model_wf(m: Model) -> bool {
    m.vertices.len() % 3 == 0 && (forall|i: int|
        0 <= i < m.vertices.len() ==> vertex_bounded(#[trigger] m.vertices[i], MODEL_MAX as int))
        && transform_wf(m.transform) && vec3_bounded(m.transform.position, MODEL_MAX as int)
        && m.shader.wf()
}

impl Model {
    pub fn new(vertices: Vec<Vertex>, colors: Vec<u32>, transform: Transform, shader: ShaderKind)
        -> (r: Model)
        ensures
            r.vertices == vertices,
            r.colors == colors,
            r.transform == transform,
            r.shader == shader,
    {
        Model { vertices, colors, transform, shader }
    }
}

} // verus!

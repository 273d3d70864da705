//! A scene: one camera and an ordered collection of models.
//!
//! Insertion order is rendering order; the depth test makes the final
//! image independent of it wherever depths differ.

use vstd::prelude::*;
use crate::camera::{camera_wf, Camera};
use crate::fx::ONE;
use crate::model::{model_wf, Model, MODEL_MAX};
use crate::vectors::vec3_bounded;

verus! {

pub struct Scene {
    pub camera: Camera,
    pub models: Vec<Model>,
}

/// A scene the pipeline can render: a well-formed camera within the
/// world bound and well-formed models.
pub open spec fn scene_wf(s: Scene) -> bool {
    camera_wf(s.camera) && vec3_bounded(s.camera.transform.position, MODEL_MAX as int) && (forall|
        i: int,
    | 0 <= i < s.models.len() ==> model_wf(#[trigger] s.models[i]))
}

impl Scene {
    /// An empty scene with a 90-degree camera at the origin.
    pub fn new() -> (r: Scene)
        ensures
            r.models.len() == 0,
            r.camera.tan_half_fov == ONE,
            r.camera.transform == crate::transform::identity_spec(),
            scene_wf(r),
    {
        Scene { camera: Camera::new(ONE), models: Vec::new() }
    }

    /// Appends a model; it renders after (and, at equal depth, over)
    /// the models already present.
    pub fn load_model(&mut self, model: Model)
        ensures
            final(self).camera == old(self).camera,
            final(self).models@ == old(self).models@.push(model),
    {
        self.models.push(model);
    }
}

} // verus!

//! The scene camera: a pose plus a field of view.

use vstd::prelude::*;
use crate::fx::{NORMAL_MAX, ONE};
use crate::transform::{transform_wf, Transform};

verus! {

pub struct Camera {
    /// `tan(FOV/2)` in fixed point: the vertical slope of the view
    /// frustum.
    pub tan_half_fov: i64,
    pub transform: Transform,
}

/// A camera the pipeline can project through: a positive, bounded
/// vertical slope and a well-formed pose.
pub open spec fn camera_wf(c: Camera) -> bool {
    0 < c.tan_half_fov <= NORMAL_MAX && transform_wf(c.transform)
}

impl Camera {
    /// A camera at the origin looking down negative Z, with the given
    /// vertical slope `tan(FOV/2)`. The slope `ONE` is a 90-degree
    /// field of view.
    pub fn new(tan_half_fov: i64) -> (r: Camera)
        ensures
            r.tan_half_fov == tan_half_fov,
            r.transform == crate::transform::identity_spec(),
            0 < tan_half_fov <= NORMAL_MAX ==> camera_wf(r),
    {
        Camera { tan_half_fov, transform: Transform::new() }
    }
}

} // verus!

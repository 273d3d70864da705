//! A software rasterizer, verified with Verus.
//!
//! The crate turns a scene of posed triangle meshes and a camera into
//! a pixel color buffer, entirely on the CPU: view-space
//! transformation, Sutherland-Hodgman frustum clipping, fan
//! triangulation, backface-culling triangle setup, and a two-pass
//! (depth-then-color) scan conversion with perspective-correct
//! attribute interpolation.
//!
//! All geometry is fixed-point (`fx::ONE` units per 1.0), which makes
//! every arithmetic step exact and lets each function carry a contract
//! that pins its result down; the properties the clipper, the
//! triangulator, the transform and the rasterizer are expected to have
//! are proved in the `*_laws` modules.

pub mod blit;
pub mod bmp;
pub mod camera;
pub mod clip;
pub mod clip_laws;
pub mod fx;
pub mod mathutil;
pub mod mesh;
pub mod model;
pub mod plane;
pub mod raster_laws;
pub mod rasterizer;
pub mod render_target;
pub mod rng;
pub mod scene;
pub mod setup;
pub mod shader;
pub mod texture;
pub mod transform;
pub mod transform_laws;
pub mod triangulate;
pub mod vectors;
pub mod vertex;

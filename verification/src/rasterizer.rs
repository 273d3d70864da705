//! The two-pass scan-conversion pipeline.
//!
//! Pass A walks every prepared triangle's bounding box and resolves
//! per-pixel visibility into the depth buffer with a strictly-greater
//! test: whichever triangle reaches a pixel with the greatest depth
//! owns it, independent of draw order. Pass B repeats the identical
//! arithmetic, tests greater-or-equal against the finished depth
//! buffer (so recomputed ties pass), and shades the surviving pixels.
//! All arithmetic is exact integer arithmetic, so the recomputation in
//! pass B is bit-identical to pass A.

use vstd::prelude::*;
use crate::camera::{camera_wf, Camera};
use crate::clip::{clip_poly, clip_polygon_against_plane, poly_bounded};
use crate::fx::{div_floor_i128, div_floor_i64, mul_wide, COORD_MAX, NORMAL_MAX, ONE, SUB};
use crate::model::{model_wf, Model, MODEL_MAX};
use crate::plane::{build_frustum_planes, dist_spec, frustum_spec, lform, norm_inf, Plane};
use crate::render_target::{pixel_index, target_wf, RenderTarget, DEPTH_CLEAR};
use crate::scene::{scene_wf, Scene};
use crate::setup::{
    edge, edge_spec, process_screen_tri, process_spec, raster_wf, RasterTriangle, DIM_MAX, OZ_MAX,
    SCREEN_LIM,
};
use crate::shader::Shader;
use crate::transform::{
    apply_basis, to_local_point_spec, to_world_point_spec, transform_wf, Transform,
};
use crate::triangulate::{fan_spec, triangulate_convex_polygon};
use crate::vectors::{vec3_bounded, Vec2, Vec3};
use crate::vertex::{vertex_bounded, Vertex};

verus! {

/// The near clipping distance in fixed point (about 0.001 world
/// units): vertices that survive clipping have camera-space depth
/// bounded away from zero.
pub const NEAR_CLIP: i64 = 66;

/// The far clipping distance in fixed point (40 world units).
pub const FAR_CLIP: i64 = 2621440;

/// Surviving vertices sit at least this far in front of the camera:
/// the near-plane distance minus the clipping tolerance.
pub const Z_GUARD: i64 = 62;

/// The aspect ratio of a render target, in fixed point.
pub open spec fn aspect_spec(width: int, height: int) -> int {
    (width * (ONE as int)) / height
}

/// Target dimensions and camera slope the projection can work with:
/// bounded extents and a bounded horizontal slope.
pub open spec fn dims_ok(width: int, height: int, thf: int) -> bool {
    1 <= width <= DIM_MAX && 1 <= height <= DIM_MAX && 0 < thf <= NORMAL_MAX && 0 < aspect_spec(
        width,
        height,
    ) <= NORMAL_MAX && (thf * aspect_spec(width, height)) / (ONE as int) <= NORMAL_MAX
}

/// The frame's six frustum planes.
pub open spec fn frustum_of(width: int, height: int, thf: int) -> Seq<Plane> {
    frustum_spec(
        (thf * aspect_spec(width, height)) / (ONE as int),
        thf,
        NEAR_CLIP as int,
        FAR_CLIP as int,
    )
}

/// A model vertex carried into camera space: the position through the
/// model pose then the inverse camera pose; the normal through the two
/// rotations alone; the texture coordinate untouched.
pub open spec fn to_camera_spec(cam_t: Transform, model_t: Transform, v: Vertex) -> Vertex {
    Vertex {
        position: to_local_point_spec(cam_t, to_world_point_spec(model_t, v.position)),
        texcoord: v.texcoord,
        normal: apply_basis(
            cam_t.inverse_basis_vectors.0,
            cam_t.inverse_basis_vectors.1,
            cam_t.inverse_basis_vectors.2,
            apply_basis(
                model_t.basis_vectors.0,
                model_t.basis_vectors.1,
                model_t.basis_vectors.2,
                v.normal,
            ),
        ),
    }
}

/// One model triangle as the camera sees it, before clipping.
pub open spec fn initial_poly_spec(
    cam_t: Transform,
    model_t: Transform,
    v0: Vertex,
    v1: Vertex,
    v2: Vertex,
) -> Seq<Vertex> {
    seq![
        to_camera_spec(cam_t, model_t, v0),
        to_camera_spec(cam_t, model_t, v1),
        to_camera_spec(cam_t, model_t, v2),
    ]
}

/// A polygon clipped against all six frustum planes in order.
pub open spec fn clip6(planes: Seq<Plane>, poly: Seq<Vertex>) -> Seq<Vertex> {
    clip_poly(
        planes[5],
        clip_poly(
            planes[4],
            clip_poly(planes[3], clip_poly(planes[2], clip_poly(planes[1], clip_poly(planes[0], poly)))),
        ),
    )
}

/// The prepared triangles of a fan-triangulated polygon: each fan
/// triangle that survives setup, in order.
pub open spec fn tris_from_fan(
    fan: Seq<[Vertex; 3]>,
    width: int,
    height: int,
    thf: int,
    mi: u32,
) -> Seq<RasterTriangle>
    decreases fan.len(),
{
    if fan.len() == 0 {
        Seq::empty()
    } else {
        tris_from_fan(fan.drop_last(), width, height, thf, mi) + match process_spec(
            fan.last()@[0],
            fan.last()@[1],
            fan.last()@[2],
            width,
            height,
            thf,
            mi,
        ) {
            Option::Some(t) => seq![t],
            Option::None => Seq::empty(),
        }
    }
}

/// The clipped polygon of one model triangle.
pub open spec fn poly_of_tri(cam: Camera, model: Model, ti: int, width: int, height: int) -> Seq<
    Vertex,
> {
    clip6(
        frustum_of(width, height, cam.tan_half_fov as int),
        initial_poly_spec(
            cam.transform,
            model.transform,
            model.vertices[3 * ti],
            model.vertices[3 * ti + 1],
            model.vertices[3 * ti + 2],
        ),
    )
}

/// The prepared triangles contributed by the first `k` triangles of
/// one model.
pub open spec fn model_tris(
    cam: Camera,
    model: Model,
    mi: u32,
    width: int,
    height: int,
    k: int,
) -> Seq<RasterTriangle>
    decreases k,
{
    if k <= 0 {
        Seq::empty()
    } else {
        model_tris(cam, model, mi, width, height, k - 1) + tris_from_fan(
            fan_spec(poly_of_tri(cam, model, k - 1, width, height)),
            width,
            height,
            cam.tan_half_fov as int,
            mi,
        )
    }
}

/// The prepared triangles contributed by the first `m` models of the
/// scene, in rendering order.
pub open spec fn scene_tris_upto(scene: Scene, width: int, height: int, m: int) -> Seq<
    RasterTriangle,
>
    decreases m,
{
    if m <= 0 {
        Seq::empty()
    } else {
        scene_tris_upto(scene, width, height, m - 1) + model_tris(
            scene.camera,
            scene.models[m - 1],
            (m - 1) as u32,
            width,
            height,
            scene.models[m - 1].vertices.len() as int / 3,
        )
    }
}

/// Every prepared triangle of the whole scene for one frame.
pub open spec fn scene_tris(scene: Scene, width: int, height: int) -> Seq<RasterTriangle> {
    scene_tris_upto(scene, width, height, scene.models.len() as int)
}

/// Clipping against the near plane pushes every surviving vertex at
/// least `Z_GUARD` in front of the camera: the near-plane distance is
/// exact in fixed point, and the clipping tolerance for a unit-scale
/// normal is 4 units.
proof fn lemma_near_guard(near: Plane, input: Seq<Vertex>)
    requires
        near == (Plane {
            normal: Vec3 { x: 0, y: 0, z: (-ONE) as i64 },
            d: (-NEAR_CLIP) as i64,
        }),
        poly_bounded(input, COORD_MAX as int),
    ensures
        forall|j: int|
            0 <= j < clip_poly(near, input).len() ==> (#[trigger] clip_poly(near, input)[j]).position.z
                <= -(Z_GUARD as int),
{
    assert(crate::plane::plane_wf(near));
    crate::clip_laws::lemma_clip_boundary(near, input);
    assert(norm_inf(near) == 65536);
    assert((3 * 65536) / 65536 == 3) by (nonlinear_arith);
    assert(crate::clip_laws::clip_eps(near) == 4);
    assert forall|j: int| 0 <= j < clip_poly(near, input).len() implies (
    #[trigger] clip_poly(near, input)[j]).position.z <= -(Z_GUARD as int) by {
        let v = clip_poly(near, input)[j].position;
        assert(dist_spec(near, v) >= -4);
        assert(near.normal.x == 0 && near.normal.y == 0 && near.normal.z == -65536 && near.d
            == -66);
        assert(lform(near, v) == 0 * (v.x as int) + 0 * (v.y as int) + (-65536) * (v.z as int) + (
        -66) * 65536);
        assert(0 * (v.x as int) == 0 && 0 * (v.y as int) == 0 && (-65536) * (v.z as int) == -65536
            * (v.z as int)) by (nonlinear_arith);
        assert(lform(near, v) == 65536 * (-(v.z as int) - 66)) by (nonlinear_arith)
            requires
                lform(near, v) == 0 * (v.x as int) + 0 * (v.y as int) + (-65536) * (v.z as int) + (
                -66) * 65536,
        ;
        vstd::arithmetic::div_mod::lemma_div_multiples_vanish(-(v.z as int) - 66, 65536);
        assert(dist_spec(near, v) == -(v.z as int) - 66);
    }
}

/// Carries one model vertex into camera space.
fn to_camera(cam_t: &Transform, model_t: &Transform, v: &Vertex) -> (r: Vertex)
    requires
        transform_wf(*cam_t),
        transform_wf(*model_t),
        vec3_bounded(cam_t.position, MODEL_MAX as int),
        vec3_bounded(model_t.position, MODEL_MAX as int),
        vertex_bounded(*v, MODEL_MAX as int),
    ensures
        r == to_camera_spec(*cam_t, *model_t, *v),
        vertex_bounded(r, COORD_MAX as int),
{
    proof {
        crate::transform::lemma_apply_bound(
            model_t.basis_vectors.0,
            model_t.basis_vectors.1,
            model_t.basis_vectors.2,
            v.position,
            MODEL_MAX as int,
        );
    }
    let world = model_t.to_world_point(v.position);
    proof {
        assert(vec3_bounded(world, 4 * (MODEL_MAX as int)));
        crate::transform::lemma_apply_bound(
            cam_t.inverse_basis_vectors.0,
            cam_t.inverse_basis_vectors.1,
            cam_t.inverse_basis_vectors.2,
            Vec3 {
                x: (world.x - cam_t.position.x) as i64,
                y: (world.y - cam_t.position.y) as i64,
                z: (world.z - cam_t.position.z) as i64,
            },
            5 * (MODEL_MAX as int),
        );
    }
    let position = cam_t.to_local_point(world);
    proof {
        assert(vec3_bounded(position, 15 * (MODEL_MAX as int)));
        crate::transform::lemma_apply_bound(
            model_t.basis_vectors.0,
            model_t.basis_vectors.1,
            model_t.basis_vectors.2,
            v.normal,
            MODEL_MAX as int,
        );
    }
    let world_normal = model_t.to_world_vector(v.normal);
    proof {
        assert(vec3_bounded(world_normal, 3 * (MODEL_MAX as int)));
        crate::transform::lemma_apply_bound(
            cam_t.inverse_basis_vectors.0,
            cam_t.inverse_basis_vectors.1,
            cam_t.inverse_basis_vectors.2,
            world_normal,
            3 * (MODEL_MAX as int),
        );
    }
    let normal = cam_t.to_local_vector(world_normal);
    proof {
        assert(vec3_bounded(normal, 9 * (MODEL_MAX as int)));
    }
    Vertex { position, texcoord: v.texcoord, normal }
}

/// The sub-pixel coordinate of a pixel's center.
pub open spec fn px_center(p: int) -> int {
    p * (SUB as int) + (SUB as int) / 2
}

/// The pixel center as a screen-space point.
pub open spec fn pix(x: int, y: int) -> Vec2 {
    Vec2 { x: px_center(x) as i64, y: px_center(y) as i64 }
}

/// The three barycentric edge weights of a pixel center.
pub open spec fn w0_spec(t: RasterTriangle, x: int, y: int) -> int {
    edge_spec(t.v2_2d, t.v3_2d, pix(x, y))
}

pub open spec fn w1_spec(t: RasterTriangle, x: int, y: int) -> int {
    edge_spec(t.v3_2d, t.v1_2d, pix(x, y))
}

pub open spec fn w2_spec(t: RasterTriangle, x: int, y: int) -> int {
    edge_spec(t.v1_2d, t.v2_2d, pix(x, y))
}

/// Whether the pixel lies inside the triangle's bounding box.
pub open spec fn in_bbox(t: RasterTriangle, x: int, y: int) -> bool {
    t.min_x <= x <= t.max_x && t.min_y <= y <= t.max_y
}

/// Whether the triangle covers the pixel: inside the bounding box and
/// all three edge weights nonnegative.
pub open spec fn covers(t: RasterTriangle, x: int, y: int) -> bool {
    in_bbox(t, x, y) && w0_spec(t, x, y) >= 0 && w1_spec(t, x, y) >= 0 && w2_spec(t, x, y) >= 0
}

/// The interpolated reciprocal depth at a pixel, normalized by the
/// triangle's area.
pub open spec fn inv_interp(t: RasterTriangle, x: int, y: int) -> int {
    (w0_spec(t, x, y) * t.inv_z1 + w1_spec(t, x, y) * t.inv_z2 + w2_spec(t, x, y) * t.inv_z3) / (
    t.area as int)
}

/// The perspective-correct depth of the triangle at a pixel.
pub open spec fn depth_of(t: RasterTriangle, x: int, y: int) -> int {
    -((ONE as int) * (ONE as int) / (-inv_interp(t, x, y)))
}

/// A perspective-correct attribute at a pixel: the weighted
/// `attribute/z` terms normalized by area, multiplied back by the
/// interpolated depth.
pub open spec fn persp_attr(t: RasterTriangle, x: int, y: int, a1: int, a2: int, a3: int) -> int {
    let over_z = (w0_spec(t, x, y) * a1 + w1_spec(t, x, y) * a2 + w2_spec(t, x, y) * a3) / (
    t.area as int);
    (over_z * depth_of(t, x, y)) / (ONE as int)
}

/// The interpolated texture coordinates at a pixel.
pub open spec fn tex_of(t: RasterTriangle, x: int, y: int) -> Vec2 {
    Vec2 {
        x: persp_attr(t, x, y, t.u1_over_z as int, t.u2_over_z as int, t.u3_over_z as int) as i64,
        y: persp_attr(t, x, y, t.v1_over_z as int, t.v2_over_z as int, t.v3_over_z as int) as i64,
    }
}

/// The interpolated normal at a pixel.
pub open spec fn normal_of(t: RasterTriangle, x: int, y: int) -> Vec3 {
    Vec3 {
        x: persp_attr(t, x, y, t.nx1_over_z as int, t.nx2_over_z as int, t.nx3_over_z as int)
            as i64,
        y: persp_attr(t, x, y, t.ny1_over_z as int, t.ny2_over_z as int, t.ny3_over_z as int)
            as i64,
        z: persp_attr(t, x, y, t.nz1_over_z as int, t.nz2_over_z as int, t.nz3_over_z as int)
            as i64,
    }
}

/// The color the owning model's shading policy assigns to the
/// triangle's fragment at a pixel.
pub open spec fn shade_spec(models: Seq<Model>, t: RasterTriangle, x: int, y: int) -> u32 {
    models[t.model_index as int].shader.color_spec(tex_of(t, x, y), normal_of(t, x, y))
}

/// What the depth pass leaves at one pixel after one triangle:
/// the triangle's depth if it covers the pixel and wins the
/// strictly-greater test, else the previous value.
pub open spec fn depth_step(t: RasterTriangle, d: int, x: int, y: int) -> int {
    if covers(t, x, y) && depth_of(t, x, y) > d {
        depth_of(t, x, y)
    } else {
        d
    }
}

/// The depth at one pixel after the whole triangle list.
pub open spec fn depth_fold(ts: Seq<RasterTriangle>, d: int, x: int, y: int) -> int
    decreases ts.len(),
{
    if ts.len() == 0 {
        d
    } else {
        depth_step(ts.last(), depth_fold(ts.drop_last(), d, x, y), x, y)
    }
}

/// The color at one pixel after the color pass: the last triangle in
/// draw order that covers the pixel and passes the greater-or-equal
/// depth test against the finished depth buffer value `dv` wins.
pub open spec fn color_fold(
    ts: Seq<RasterTriangle>,
    models: Seq<Model>,
    dv: int,
    c: u32,
    x: int,
    y: int,
) -> u32
    decreases ts.len(),
{
    if ts.len() == 0 {
        c
    } else if covers(ts.last(), x, y) && depth_of(ts.last(), x, y) >= dv {
        shade_spec(models, ts.last(), x, y)
    } else {
        color_fold(ts.drop_last(), models, dv, c, x, y)
    }
}

/// The barycentric identity: the three edge weights of any point sum
/// exactly to the triangle's signed area.
#[verifier::rlimit(60)]
pub proof fn lemma_weight_sum(a: Vec2, b: Vec2, c: Vec2, p: Vec2)
    ensures
        edge_spec(b, c, p) + edge_spec(c, a, p) + edge_spec(a, b, p) == edge_spec(a, b, c),
{
    let ax = a.x as int;
    let ay = a.y as int;
    let bx = b.x as int;
    let by = b.y as int;
    let cx = c.x as int;
    let cy = c.y as int;
    let px = p.x as int;
    let py = p.y as int;
    assert((px - bx) * (cy - by) == px * cy - px * by - bx * cy + bx * by) by (nonlinear_arith);
    assert((py - by) * (cx - bx) == py * cx - py * bx - by * cx + by * bx) by (nonlinear_arith);
    assert((px - cx) * (ay - cy) == px * ay - px * cy - cx * ay + cx * cy) by (nonlinear_arith);
    assert((py - cy) * (ax - cx) == py * ax - py * cx - cy * ax + cy * cx) by (nonlinear_arith);
    assert((px - ax) * (by - ay) == px * by - px * ay - ax * by + ax * ay) by (nonlinear_arith);
    assert((py - ay) * (bx - ax) == py * bx - py * ax - ay * bx + ay * ax) by (nonlinear_arith);
    assert((cx - ax) * (by - ay) == cx * by - cx * ay - ax * by + ax * ay) by (nonlinear_arith);
    assert((cy - ay) * (bx - ax) == cy * bx - cy * ax - ay * bx + ay * ax) by (nonlinear_arith);
    assert(bx * by == by * bx && cx * cy == cy * cx && ax * ay == ay * ax && bx * cy == cy * bx
        && by * cx == cx * by) by (nonlinear_arith);
    assert((px - bx) * (cy - by) - (py - by) * (cx - bx) + ((px - cx) * (ay - cy) - (py - cy) * (ax
        - cx)) + ((px - ax) * (by - ay) - (py - ay) * (bx - ax)) == (cx - ax) * (by - ay) - (cy
        - ay) * (bx - ax));
}

/// When the triangle covers the pixel, the interpolated reciprocal
/// depth is at most `-1` and the perspective-correct depth lies in
/// `[-ONE*ONE, -1]`; in particular it beats the cleared depth.
pub proof fn lemma_depth_range(t: RasterTriangle, width: int, height: int, x: int, y: int)
    requires
        raster_wf(t, width, height),
        covers(t, x, y),
    ensures
        inv_interp(t, x, y) <= -1,
        -(ONE as int) * (ONE as int) <= depth_of(t, x, y) <= -1,
        depth_of(t, x, y) > DEPTH_CLEAR as int,
{
    let w0 = w0_spec(t, x, y);
    let w1 = w1_spec(t, x, y);
    let w2 = w2_spec(t, x, y);
    let s = w0 * t.inv_z1 + w1 * t.inv_z2 + w2 * t.inv_z3;
    lemma_weight_sum(t.v1_2d, t.v2_2d, t.v3_2d, pix(x, y));
    assert(w0 + w1 + w2 == t.area);
    assert(w0 * t.inv_z1 <= -w0) by (nonlinear_arith)
        requires
            w0 >= 0,
            t.inv_z1 <= -1,
    ;
    assert(w1 * t.inv_z2 <= -w1) by (nonlinear_arith)
        requires
            w1 >= 0,
            t.inv_z2 <= -1,
    ;
    assert(w2 * t.inv_z3 <= -w2) by (nonlinear_arith)
        requires
            w2 >= 0,
            t.inv_z3 <= -1,
    ;
    assert(s <= -(t.area as int));
    vstd::arithmetic::div_mod::lemma_div_is_ordered(s, -(t.area as int), t.area as int);
    assert((-(t.area as int)) / (t.area as int) == -1) by (nonlinear_arith)
        requires
            t.area >= 1,
    ;
    let iv = inv_interp(t, x, y);
    assert(iv <= -1);
    let oo2 = (ONE as int) * (ONE as int);
    assert(oo2 == 0x1_0000_0000);
    vstd::arithmetic::div_mod::lemma_div_pos_is_pos(oo2, -iv);
    crate::fx::lemma_div_bound(oo2, -iv, oo2);
    assert(oo2 / (-iv) >= 1 || oo2 / (-iv) == 0);
    if oo2 / (-iv) == 0 {
        // The reciprocal depth is bounded, so the quotient cannot
        // vanish: `-iv <= oo2` forces `oo2 / -iv >= 1`.
        lemma_inv_interp_bound(t, width, height, x, y);
        assert(-iv <= oo2);
        vstd::arithmetic::div_mod::lemma_div_is_ordered(-iv, oo2, -iv);
        vstd::arithmetic::div_mod::lemma_div_by_self(-iv);
        assert(false);
    }
}

/// The interpolated reciprocal depth of a covered pixel is at least
/// `-ONE*ONE`.
proof fn lemma_inv_interp_bound(t: RasterTriangle, width: int, height: int, x: int, y: int)
    requires
        raster_wf(t, width, height),
        covers(t, x, y),
    ensures
        -0x1_0000_0000 <= inv_interp(t, x, y),
{
    let w0 = w0_spec(t, x, y);
    let w1 = w1_spec(t, x, y);
    let w2 = w2_spec(t, x, y);
    let s = w0 * t.inv_z1 + w1 * t.inv_z2 + w2 * t.inv_z3;
    lemma_weight_sum(t.v1_2d, t.v2_2d, t.v3_2d, pix(x, y));
    assert(w0 * t.inv_z1 >= -0x1_0000_0000 * w0) by (nonlinear_arith)
        requires
            w0 >= 0,
            -0x1_0000_0000 <= t.inv_z1,
    ;
    assert(w1 * t.inv_z2 >= -0x1_0000_0000 * w1) by (nonlinear_arith)
        requires
            w1 >= 0,
            -0x1_0000_0000 <= t.inv_z2,
    ;
    assert(w2 * t.inv_z3 >= -0x1_0000_0000 * w2) by (nonlinear_arith)
        requires
            w2 >= 0,
            -0x1_0000_0000 <= t.inv_z3,
    ;
    assert(s >= -0x1_0000_0000 * (t.area as int)) by (nonlinear_arith)
        requires
            w0 + w1 + w2 == t.area as int,
            w0 * t.inv_z1 >= -0x1_0000_0000 * w0,
            w1 * t.inv_z2 >= -0x1_0000_0000 * w1,
            w2 * t.inv_z3 >= -0x1_0000_0000 * w2,
            s == w0 * t.inv_z1 + w1 * t.inv_z2 + w2 * t.inv_z3,
    ;
    vstd::arithmetic::div_mod::lemma_div_is_ordered(
        -0x1_0000_0000 * (t.area as int),
        s,
        t.area as int,
    );
    assert((-0x1_0000_0000 * (t.area as int)) / (t.area as int) == -0x1_0000_0000)
        by (nonlinear_arith)
        requires
            t.area >= 1,
    ;
}

/// Evaluates one pixel of one triangle: the coverage mask, the
/// perspective-correct depth when covered, and the three edge weights.
fn eval_depth(t: &RasterTriangle, x: u32, y: u32, width: u32, height: u32) -> (r: (
    bool,
    i64,
    i64,
    i64,
    i64,
))
    requires
        raster_wf(*t, width as int, height as int),
        width <= crate::setup::DIM_MAX,
        height <= crate::setup::DIM_MAX,
        x < width,
        y < height,
        in_bbox(*t, x as int, y as int),
    ensures
        r.0 == covers(*t, x as int, y as int),
        r.0 ==> r.1 == depth_of(*t, x as int, y as int),
        r.0 ==> -(ONE as int) * (ONE as int) <= r.1 <= -1,
        r.0 ==> r.2 == w0_spec(*t, x as int, y as int) && r.3 == w1_spec(*t, x as int, y as int)
            && r.4 == w2_spec(*t, x as int, y as int),
{
    let p = Vec2 { x: (x as i64) * SUB + SUB / 2, y: (y as i64) * SUB + SUB / 2 };
    proof {
        assert(p == pix(x as int, y as int));
    }
    let w0: i64 = edge(t.v2_2d, t.v3_2d, p);
    let w1: i64 = edge(t.v3_2d, t.v1_2d, p);
    let w2: i64 = edge(t.v1_2d, t.v2_2d, p);
    if !(w0 >= 0 && w1 >= 0 && w2 >= 0) {
        return (false, 0, 0, 0, 0);
    }
    proof {
        lemma_depth_range(*t, width as int, height as int, x as int, y as int);
        lemma_inv_interp_bound(*t, width as int, height as int, x as int, y as int);
        crate::fx::lemma_mul_bound2(w0 as int, t.inv_z1 as int, 0x4_0000_0000_0000_0000, 0x1_0000_0000);
        crate::fx::lemma_mul_bound2(w1 as int, t.inv_z2 as int, 0x4_0000_0000_0000_0000, 0x1_0000_0000);
        crate::fx::lemma_mul_bound2(w2 as int, t.inv_z3 as int, 0x4_0000_0000_0000_0000, 0x1_0000_0000);
    }
    let s: i128 = mul_wide(w0, t.inv_z1) + mul_wide(w1, t.inv_z2) + mul_wide(w2, t.inv_z3);
    let iv: i128 = div_floor_i128(s, t.area as i128);
    let depth: i64 = -(div_floor_i128((ONE as i128) * (ONE as i128), -iv) as i64);
    (true, depth, w0, w1, w2)
}

/// A weighted average with nonnegative weights summing to `area`
/// stays within the bound of its inputs.
proof fn lemma_avg_bound(w0: int, w1: int, w2: int, a1: int, a2: int, a3: int, area: int, m: int)
    requires
        w0 >= 0,
        w1 >= 0,
        w2 >= 0,
        w0 + w1 + w2 == area,
        area >= 1,
        -m <= a1 <= m,
        -m <= a2 <= m,
        -m <= a3 <= m,
        m >= 0,
    ensures
        -m <= (w0 * a1 + w1 * a2 + w2 * a3) / area <= m,
{
    let s = w0 * a1 + w1 * a2 + w2 * a3;
    assert(-(w0 * m) <= w0 * a1 <= w0 * m) by (nonlinear_arith)
        requires
            w0 >= 0,
            -m <= a1 <= m,
    ;
    assert(-(w1 * m) <= w1 * a2 <= w1 * m) by (nonlinear_arith)
        requires
            w1 >= 0,
            -m <= a2 <= m,
    ;
    assert(-(w2 * m) <= w2 * a3 <= w2 * m) by (nonlinear_arith)
        requires
            w2 >= 0,
            -m <= a3 <= m,
    ;
    assert(w0 * m + w1 * m + w2 * m == area * m) by (nonlinear_arith)
        requires
            w0 + w1 + w2 == area,
    ;
    assert(-(area * m) <= s <= area * m);
    assert((area * m) / area == m) by (nonlinear_arith)
        requires
            area >= 1,
            m >= 0,
    ;
    assert((-(area * m)) / area == -m) by (nonlinear_arith)
        requires
            area >= 1,
            m >= 0,
    ;
    vstd::arithmetic::div_mod::lemma_div_is_ordered(s, area * m, area);
    vstd::arithmetic::div_mod::lemma_div_is_ordered(-(area * m), s, area);
}

/// One perspective-correct attribute: the weighted `attribute/z`
/// terms normalized by area, multiplied back by the depth.
fn eval_attr(w0: i64, w1: i64, w2: i64, area: i64, depth: i64, a1: i64, a2: i64, a3: i64) -> (r:
    i64)
    requires
        0 <= w0,
        0 <= w1,
        0 <= w2,
        w0 + w1 + w2 == area,
        1 <= area,
        -(ONE as int) * (ONE as int) <= depth <= -1,
        -OZ_MAX <= a1 <= OZ_MAX,
        -OZ_MAX <= a2 <= OZ_MAX,
        -OZ_MAX <= a3 <= OZ_MAX,
    ensures
        r == ((w0 * a1 + w1 * a2 + w2 * a3) / (area as int) * (depth as int)) / (ONE as int),
{
    proof {
        crate::fx::lemma_mul_bound2(w0 as int, a1 as int, 0x8000_0000_0000_0000, OZ_MAX as int);
        crate::fx::lemma_mul_bound2(w1 as int, a2 as int, 0x8000_0000_0000_0000, OZ_MAX as int);
        crate::fx::lemma_mul_bound2(w2 as int, a3 as int, 0x8000_0000_0000_0000, OZ_MAX as int);
        lemma_avg_bound(
            w0 as int,
            w1 as int,
            w2 as int,
            a1 as int,
            a2 as int,
            a3 as int,
            area as int,
            OZ_MAX as int,
        );
    }
    let sa: i128 = mul_wide(w0, a1) + mul_wide(w1, a2) + mul_wide(w2, a3);
    let oz: i128 = div_floor_i128(sa, area as i128);
    proof {
        crate::fx::lemma_mul_bound2(oz as int, depth as int, OZ_MAX as int, 0x1_0000_0000);
        crate::fx::lemma_div_bound(
            oz as int * depth as int,
            ONE as int,
            (OZ_MAX as int) * 0x1_0000_0000,
        );
    }
    let prod: i128 = oz * (depth as i128);
    div_floor_i128(prod, ONE as i128) as i64
}

/// What the color pass leaves at one pixel after one triangle: the
/// shaded fragment if the triangle covers the pixel and its depth
/// passes the greater-or-equal test against the resolved depth `dv`,
/// else the previous color.
pub open spec fn color_step(
    models: Seq<Model>,
    t: RasterTriangle,
    dv: int,
    c: u32,
    x: int,
    y: int,
) -> u32 {
    if covers(t, x, y) && depth_of(t, x, y) >= dv {
        shade_spec(models, t, x, y)
    } else {
        c
    }
}

/// The color value at one pixel while a triangle's box is being
/// scanned, against the fixed depth buffer `d` and the snapshot `c0`.
pub open spec fn color_scan(
    models: Seq<Model>,
    t: RasterTriangle,
    d: Seq<i64>,
    c0: Seq<u32>,
    width: u32,
    px: int,
    py: int,
    cx: int,
    cy: int,
) -> u32 {
    let idx = pixel_index(width, px, py);
    if in_bbox(t, px, py) && (py < cy || (py == cy && px < cx)) {
        color_step(models, t, d[idx] as int, c0[idx], px, py)
    } else {
        c0[idx]
    }
}

/// The depth value at one pixel while a triangle's box is being
/// scanned: pixels before the scan position `(cx, cy)` (row-major,
/// inside the box) already carry the stepped value, the rest still
/// carry the snapshot `d0`.
pub open spec fn depth_scan(
    t: RasterTriangle,
    d0: Seq<i64>,
    width: u32,
    px: int,
    py: int,
    cx: int,
    cy: int,
) -> int {
    let idx = pixel_index(width, px, py);
    if in_bbox(t, px, py) && (py < cy || (py == cy && px < cx)) {
        depth_step(t, d0[idx] as int, px, py)
    } else {
        d0[idx] as int
    }
}

/// The reusable per-frame state of the pipeline: two scratch polygon
/// buffers for clipping and a scratch triangle list for fan
/// triangulation.
pub struct Rasterizer {
    poly_buffer1: Vec<crate::vertex::Vertex>,
    poly_buffer2: Vec<crate::vertex::Vertex>,
    final_triangles: Vec<[crate::vertex::Vertex; 3]>,
}

impl Rasterizer {
    pub fn new() -> (r: Rasterizer)
    {
        Rasterizer {
            poly_buffer1: Vec::new(),
            poly_buffer2: Vec::new(),
            final_triangles: Vec::new(),
        }
    }

    /// Clips one model triangle against the six frustum planes,
    /// leaving the surviving polygon (possibly empty) in
    /// `output_polygon`. Every surviving vertex is bounded and sits at
    /// least `Z_GUARD` in front of the camera.
    pub fn frustum_cull(
        &mut self,
        camera: &Camera,
        model: &Model,
        width: u32,
        height: u32,
        v0: &Vertex,
        v1: &Vertex,
        v2: &Vertex,
        output_polygon: &mut Vec<Vertex>,
    )
        requires
            camera_wf(*camera),
            vec3_bounded(camera.transform.position, MODEL_MAX as int),
            transform_wf(model.transform),
            vec3_bounded(model.transform.position, MODEL_MAX as int),
            vertex_bounded(*v0, MODEL_MAX as int),
            vertex_bounded(*v1, MODEL_MAX as int),
            vertex_bounded(*v2, MODEL_MAX as int),
            dims_ok(width as int, height as int, camera.tan_half_fov as int),
        ensures
            final(output_polygon)@ == clip6(
                frustum_of(width as int, height as int, camera.tan_half_fov as int),
                initial_poly_spec(camera.transform, model.transform, *v0, *v1, *v2),
            ),
            poly_bounded(final(output_polygon)@, COORD_MAX as int),
            forall|j: int|
                0 <= j < final(output_polygon).len() ==> (#[trigger] final(output_polygon)@[j]).position.z
                    <= -Z_GUARD,
    {
        let thf: i64 = camera.tan_half_fov;
        let aspect: i64 = div_floor_i64((width as i64) * ONE, height as i64);
        let planes: [Plane; 6] = build_frustum_planes(thf, aspect, NEAR_CLIP, FAR_CLIP);
        let ghost frustum = frustum_of(width as int, height as int, thf as int);
        proof {
            assert(aspect == aspect_spec(width as int, height as int));
            assert(planes@ == frustum);
        }
        let cv0 = to_camera(&camera.transform, &model.transform, v0);
        let cv1 = to_camera(&camera.transform, &model.transform, v1);
        let cv2 = to_camera(&camera.transform, &model.transform, v2);
        self.poly_buffer1.clear();
        self.poly_buffer1.push(cv0);
        self.poly_buffer1.push(cv1);
        self.poly_buffer1.push(cv2);
        let ghost init = initial_poly_spec(camera.transform, model.transform, *v0, *v1, *v2);
        proof {
            assert(self.poly_buffer1@ =~= init);
            assert forall|i: int| 0 <= i < init.len() implies vertex_bounded(
                #[trigger] init[i],
                COORD_MAX as int,
            ) by {
            }
        }
        clip_polygon_against_plane(&self.poly_buffer1, &mut self.poly_buffer2, &planes[0]);
        let ghost c1 = clip_poly(frustum[0], init);
        proof {
            assert(self.poly_buffer2@ == c1);
            lemma_near_guard(frustum[0], init);
        }
        clip_polygon_against_plane(&self.poly_buffer2, &mut self.poly_buffer1, &planes[1]);
        let ghost c2 = clip_poly(frustum[1], c1);
        proof {
            crate::clip_laws::lemma_clip_z_upper(frustum[1], c1, -(Z_GUARD as int));
        }
        clip_polygon_against_plane(&self.poly_buffer1, &mut self.poly_buffer2, &planes[2]);
        let ghost c3 = clip_poly(frustum[2], c2);
        proof {
            crate::clip_laws::lemma_clip_z_upper(frustum[2], c2, -(Z_GUARD as int));
        }
        clip_polygon_against_plane(&self.poly_buffer2, &mut self.poly_buffer1, &planes[3]);
        let ghost c4 = clip_poly(frustum[3], c3);
        proof {
            crate::clip_laws::lemma_clip_z_upper(frustum[3], c3, -(Z_GUARD as int));
        }
        clip_polygon_against_plane(&self.poly_buffer1, &mut self.poly_buffer2, &planes[4]);
        let ghost c5 = clip_poly(frustum[4], c4);
        proof {
            crate::clip_laws::lemma_clip_z_upper(frustum[4], c4, -(Z_GUARD as int));
        }
        clip_polygon_against_plane(&self.poly_buffer2, &mut self.poly_buffer1, &planes[5]);
        let ghost c6 = clip_poly(frustum[5], c5);
        proof {
            crate::clip_laws::lemma_clip_z_upper(frustum[5], c5, -(Z_GUARD as int));
            assert(self.poly_buffer1@ == c6);
            assert(c6 == clip6(frustum, init));
        }
        output_polygon.clear();
        let n: usize = self.poly_buffer1.len();
        let mut i: usize = 0;
        while i < n
            invariant
                n == self.poly_buffer1.len(),
                0 <= i <= n,
                output_polygon@ == self.poly_buffer1@.take(i as int),
            decreases n - i,
        {
            output_polygon.push(self.poly_buffer1[i]);
            i = i + 1;
        }
        proof {
            assert(self.poly_buffer1@.take(n as int) =~= self.poly_buffer1@);
        }
    }

    /// Prepares every visible triangle of the scene for scan
    /// conversion: pose change into camera space, frustum clipping,
    /// fan triangulation, and per-triangle setup, in rendering order.
    #[verifier::rlimit(60)]
    pub fn geometry_setup_pass(&mut self, scene: &Scene, width: u32, height: u32) -> (r: Vec<
        RasterTriangle,
    >)
        requires
            scene_wf(*scene),
            dims_ok(width as int, height as int, scene.camera.tan_half_fov as int),
            scene.models.len() < 0x1_0000_0000,
        ensures
            r@ == scene_tris(*scene, width as int, height as int),
            forall|i: int|
                0 <= i < r.len() ==> raster_wf(#[trigger] r@[i], width as int, height as int)
                    && r@[i].model_index < scene.models.len(),
    {
        let mut raster_triangles: Vec<RasterTriangle> = Vec::new();
        let mut clipped: Vec<Vertex> = Vec::new();
        let thf: i64 = scene.camera.tan_half_fov;
        let nm: usize = scene.models.len();
        let mut m: usize = 0;
        while m < nm
            invariant
                scene_wf(*scene),
                dims_ok(width as int, height as int, scene.camera.tan_half_fov as int),
                thf == scene.camera.tan_half_fov,
                nm == scene.models.len(),
                nm < 0x1_0000_0000,
                0 <= m <= nm,
                raster_triangles@ == scene_tris_upto(*scene, width as int, height as int, m as int),
                forall|i: int|
                    0 <= i < raster_triangles.len() ==> raster_wf(
                        #[trigger] raster_triangles@[i],
                        width as int,
                        height as int,
                    ) && raster_triangles@[i].model_index < scene.models.len(),
            decreases nm - m,
        {
            let nt: usize = scene.models[m].vertices.len() / 3;
            proof {
                assert(model_wf(scene.models[m as int]));
                vstd::arithmetic::div_mod::lemma_fundamental_div_mod(
                    scene.models[m as int].vertices.len() as int,
                    3,
                );
                assert(scene.models[m as int].vertices.len() == 3 * nt);
            }
            let mut ti: usize = 0;
            while ti < nt
                invariant
                    scene_wf(*scene),
                    dims_ok(width as int, height as int, scene.camera.tan_half_fov as int),
                    thf == scene.camera.tan_half_fov,
                    nm == scene.models.len(),
                    nm < 0x1_0000_0000,
                    0 <= m < nm,
                    0 <= ti <= nt,
                    scene.models[m as int].vertices.len() == 3 * nt,
                    raster_triangles@ == scene_tris_upto(*scene, width as int, height as int, m as int)
                        + model_tris(
                        scene.camera,
                        scene.models[m as int],
                        m as u32,
                        width as int,
                        height as int,
                        ti as int,
                    ),
                    forall|i: int|
                        0 <= i < raster_triangles.len() ==> raster_wf(
                            #[trigger] raster_triangles@[i],
                            width as int,
                            height as int,
                        ) && raster_triangles@[i].model_index < scene.models.len(),
                decreases nt - ti,
            {
                let i: usize = 3 * ti;
                let v0: Vertex = scene.models[m].vertices[i];
                let v1: Vertex = scene.models[m].vertices[i + 1];
                let v2: Vertex = scene.models[m].vertices[i + 2];
                self.frustum_cull(
                    &scene.camera,
                    &scene.models[m],
                    width,
                    height,
                    &v0,
                    &v1,
                    &v2,
                    &mut clipped,
                );
                let ghost poly = poly_of_tri(
                    scene.camera,
                    scene.models[m as int],
                    ti as int,
                    width as int,
                    height as int,
                );
                proof {
                    assert(clipped@ == poly);
                }
                let ghost fan = fan_spec(poly);
                let ghost base = raster_triangles@;
                if clipped.len() != 0 {
                    self.final_triangles.clear();
                    triangulate_convex_polygon(&clipped, &mut self.final_triangles);
                    proof {
                        assert(self.final_triangles@ =~= fan);
                    }
                    let nf: usize = self.final_triangles.len();
                    let mut fi: usize = 0;
                    while fi < nf
                        invariant
                            scene_wf(*scene),
                            dims_ok(width as int, height as int, scene.camera.tan_half_fov as int),
                            thf == scene.camera.tan_half_fov,
                            nm == scene.models.len(),
                            nm < 0x1_0000_0000,
                            0 <= m < nm,
                            0 <= fi <= nf,
                            nf == self.final_triangles.len(),
                            self.final_triangles@ == fan,
                            fan == fan_spec(poly),
                            poly_bounded(poly, COORD_MAX as int),
                            forall|j: int|
                                0 <= j < poly.len() ==> (#[trigger] poly[j]).position.z <= -Z_GUARD,
                            raster_triangles@ == base + tris_from_fan(
                                fan.take(fi as int),
                                width as int,
                                height as int,
                                thf as int,
                                m as u32,
                            ),
                            forall|i2: int|
                                0 <= i2 < raster_triangles.len() ==> raster_wf(
                                    #[trigger] raster_triangles@[i2],
                                    width as int,
                                    height as int,
                                ) && raster_triangles@[i2].model_index < scene.models.len(),
                        decreases nf - fi,
                    {
                        let tri: [Vertex; 3] = self.final_triangles[fi];
                        proof {
                            assert(tri@[0] == poly[0] && tri@[1] == poly[fi + 1] && tri@[2]
                                == poly[fi + 2]);
                        }
                        let td = process_screen_tri(
                            &tri[0],
                            &tri[1],
                            &tri[2],
                            width,
                            height,
                            thf,
                            m as u32,
                        );
                        match td {
                            Option::Some(t) => {
                                raster_triangles.push(t);
                            },
                            Option::None => {},
                        }
                        proof {
                            assert(fan.take(fi as int + 1).drop_last() =~= fan.take(fi as int));
                            assert(fan.take(fi as int + 1).last() == fan[fi as int]);
                            assert(raster_triangles@ == base + tris_from_fan(
                                fan.take(fi as int + 1),
                                width as int,
                                height as int,
                                thf as int,
                                m as u32,
                            ));
                        }
                        fi = fi + 1;
                    }
                    proof {
                        assert(fan.take(nf as int) =~= fan);
                    }
                } else {
                    proof {
                        assert(fan =~= Seq::<[Vertex; 3]>::empty());
                        assert(raster_triangles@ =~= base + tris_from_fan(
                            fan,
                            width as int,
                            height as int,
                            thf as int,
                            m as u32,
                        ));
                    }
                }
                ti = ti + 1;
            }
            proof {
                assert(raster_triangles@ == scene_tris_upto(
                    *scene,
                    width as int,
                    height as int,
                    m as int + 1,
                ));
            }
            m = m + 1;
        }
        raster_triangles
    }

    /// Renders the scene into the target: clears both buffers, runs
    /// geometry setup, then the depth pass and the color pass. The
    /// resulting buffers are, pixel for pixel, the folds of the two
    /// passes over the frame's prepared triangles.
    pub fn render(&mut self, render_target: &mut RenderTarget, scene: &Scene)
        requires
            scene_wf(*scene),
            target_wf(*old(render_target)),
            dims_ok(
                old(render_target).width as int,
                old(render_target).height as int,
                scene.camera.tan_half_fov as int,
            ),
            scene.models.len() < 0x1_0000_0000,
        ensures
            target_wf(*final(render_target)),
            final(render_target).width == old(render_target).width,
            final(render_target).height == old(render_target).height,
            final(render_target).size == old(render_target).size,
            forall|px: int, py: int|
                0 <= px < old(render_target).width && 0 <= py < old(render_target).height
                    ==> final(render_target).depth_buffer@[
                    pixel_index(old(render_target).width, px, py)
                ] as int == depth_fold(
                    scene_tris(*scene, old(render_target).width as int, old(render_target).height as int),
                    DEPTH_CLEAR as int,
                    px,
                    py,
                ),
            forall|px: int, py: int|
                0 <= px < old(render_target).width && 0 <= py < old(render_target).height
                    ==> final(render_target).color_buffer@[
                    pixel_index(old(render_target).width, px, py)
                ] == color_fold(
                    scene_tris(*scene, old(render_target).width as int, old(render_target).height as int),
                    scene.models@,
                    depth_fold(
                        scene_tris(
                            *scene,
                            old(render_target).width as int,
                            old(render_target).height as int,
                        ),
                        DEPTH_CLEAR as int,
                        px,
                        py,
                    ),
                    0u32,
                    px,
                    py,
                ),
    {
        render_target.fill(0);
        render_target.clear_depth();
        let w: u32 = render_target.width;
        let h: u32 = render_target.height;
        let triangles = self.geometry_setup_pass(scene, w, h);
        proof {
            assert forall|px: int, py: int| 0 <= px < w && 0 <= py < h implies 0 <= #[trigger] pixel_index(
                w,
                px,
                py,
            ) < render_target.size by {
                crate::render_target::lemma_pixel_index_bound(*render_target, px, py);
            }
        }
        self.depth_pass(render_target, &triangles);
        self.color_pass(&scene.models, render_target, &triangles);
    }

    /// Pass A: resolves per-pixel visibility into the depth buffer.
    /// For every pixel, the final depth is the fold of the
    /// strictly-greater test over the triangle list.
    pub fn depth_pass(&self, fb: &mut RenderTarget, triangles: &Vec<RasterTriangle>)
        requires
            target_wf(*old(fb)),
            1 <= old(fb).width <= crate::setup::DIM_MAX,
            1 <= old(fb).height <= crate::setup::DIM_MAX,
            forall|i: int|
                0 <= i < triangles.len() ==> raster_wf(
                    #[trigger] triangles[i],
                    old(fb).width as int,
                    old(fb).height as int,
                ),
        ensures
            target_wf(*final(fb)),
            final(fb).width == old(fb).width,
            final(fb).height == old(fb).height,
            final(fb).size == old(fb).size,
            final(fb).color_buffer == old(fb).color_buffer,
            forall|px: int, py: int|
                0 <= px < old(fb).width && 0 <= py < old(fb).height ==> final(fb).depth_buffer@[
                    pixel_index(old(fb).width, px, py)
                ] as int == depth_fold(
                    triangles@,
                    old(fb).depth_buffer@[pixel_index(old(fb).width, px, py)] as int,
                    px,
                    py,
                ),
    {
        let w: u32 = fb.width;
        let h: u32 = fb.height;
        let n: usize = triangles.len();
        let mut k: usize = 0;
        while k < n
            invariant
                n == triangles.len(),
                0 <= k <= n,
                w == old(fb).width,
                h == old(fb).height,
                1 <= w <= crate::setup::DIM_MAX,
                1 <= h <= crate::setup::DIM_MAX,
                target_wf(*fb),
                fb.width == w,
                fb.height == h,
                fb.size == old(fb).size,
                fb.color_buffer == old(fb).color_buffer,
                forall|i: int|
                    0 <= i < triangles.len() ==> raster_wf(#[trigger] triangles[i], w as int, h as int),
                forall|px: int, py: int|
                    0 <= px < w && 0 <= py < h ==> #[trigger] fb.depth_buffer@[pixel_index(
                        w,
                        px,
                        py,
                    )] as int == depth_fold(
                        triangles@.take(k as int),
                        old(fb).depth_buffer@[pixel_index(w, px, py)] as int,
                        px,
                        py,
                    ),
            decreases n - k,
        {
            let t: RasterTriangle = triangles[k];
            let ghost d0 = fb.depth_buffer@;
            let mut y: u32 = t.min_y;
            while y <= t.max_y
                invariant
                    raster_wf(t, w as int, h as int),
                    t.min_y <= y <= t.max_y + 1,
                    target_wf(*fb),
                    fb.width == w,
                    fb.height == h,
                    fb.size == old(fb).size,
                    fb.color_buffer == old(fb).color_buffer,
                    1 <= w <= crate::setup::DIM_MAX,
                    1 <= h <= crate::setup::DIM_MAX,
                    d0.len() == fb.size,
                    forall|px: int, py: int|
                        0 <= px < w && 0 <= py < h ==> #[trigger] fb.depth_buffer@[pixel_index(
                            w,
                            px,
                            py,
                        )] as int == depth_scan(t, d0, w, px, py, t.min_x as int, y as int),
                decreases t.max_y + 1 - y,
            {
                let mut x: u32 = t.min_x;
                while x <= t.max_x
                    invariant
                        raster_wf(t, w as int, h as int),
                        t.min_x <= x <= t.max_x + 1,
                        t.min_y <= y <= t.max_y,
                        target_wf(*fb),
                        fb.width == w,
                        fb.height == h,
                        fb.size == old(fb).size,
                        fb.color_buffer == old(fb).color_buffer,
                        1 <= w <= crate::setup::DIM_MAX,
                        1 <= h <= crate::setup::DIM_MAX,
                        d0.len() == fb.size,
                        forall|px: int, py: int|
                            0 <= px < w && 0 <= py < h ==> #[trigger] fb.depth_buffer@[pixel_index(
                                w,
                                px,
                                py,
                            )] as int == depth_scan(t, d0, w, px, py, x as int, y as int),
                    decreases t.max_x + 1 - x,
                {
                    let r = eval_depth(&t, x, y, w, h);
                    proof {
                        crate::render_target::lemma_pixel_index_bound(*fb, x as int, y as int);
                    }
                    let idx: usize = (y as usize) * (w as usize) + (x as usize);
                    let ghost before = fb.depth_buffer@;
                    if r.0 {
                        if r.1 > fb.depth_buffer[idx] {
                            self.store_depth(fb, idx, r.1);
                        }
                    }
                    proof {
                        assert forall|px: int, py: int|
                            0 <= px < w && 0 <= py < h implies #[trigger] fb.depth_buffer@[pixel_index(
                            w,
                            px,
                            py,
                        )] as int == depth_scan(t, d0, w, px, py, x as int + 1, y as int) by {
                            crate::render_target::lemma_pixel_index_bound(*fb, px, py);
                            if px == x as int && py == y as int {
                            } else {
                                crate::render_target::lemma_pixel_index_injective(
                                    w,
                                    px,
                                    py,
                                    x as int,
                                    y as int,
                                );
                            }
                        }
                    }
                    x = x + 1;
                }
                proof {
                    assert forall|px: int, py: int|
                        0 <= px < w && 0 <= py < h implies #[trigger] fb.depth_buffer@[pixel_index(
                        w,
                        px,
                        py,
                    )] as int == depth_scan(t, d0, w, px, py, t.min_x as int, y as int + 1) by {
                        assert(fb.depth_buffer@[pixel_index(w, px, py)] as int == depth_scan(
                            t,
                            d0,
                            w,
                            px,
                            py,
                            t.max_x as int + 1,
                            y as int,
                        ));
                    }
                }
                y = y + 1;
            }
            proof {
                assert forall|px: int, py: int|
                    0 <= px < w && 0 <= py < h implies #[trigger] fb.depth_buffer@[pixel_index(
                    w,
                    px,
                    py,
                )] as int == depth_fold(
                    triangles@.take(k as int + 1),
                    old(fb).depth_buffer@[pixel_index(w, px, py)] as int,
                    px,
                    py,
                ) by {
                    let idx = pixel_index(w, px, py);
                    assert(fb.depth_buffer@[idx] as int == depth_scan(
                        t,
                        d0,
                        w,
                        px,
                        py,
                        t.min_x as int,
                        t.max_y as int + 1,
                    ));
                    assert(triangles@.take(k as int + 1).drop_last() =~= triangles@.take(k as int));
                    assert(triangles@.take(k as int + 1).last() == t);
                }
            }
            k = k + 1;
        }
        proof {
            assert(triangles@.take(n as int) =~= triangles@);
        }
    }

    /// Pass B: shades the visible fragments. Repeats the identical
    /// coverage and depth arithmetic of pass A, tests greater-or-equal
    /// against the depth buffer pass A finished (so recomputed ties
    /// pass), and writes the owning model's shaded color. For every
    /// pixel, the final color is the fold of that test over the
    /// triangle list; the depth buffer is untouched.
    pub fn color_pass(&self, models: &Vec<Model>, fb: &mut RenderTarget, triangles: &Vec<
        RasterTriangle,
    >)
        requires
            target_wf(*old(fb)),
            1 <= old(fb).width <= crate::setup::DIM_MAX,
            1 <= old(fb).height <= crate::setup::DIM_MAX,
            forall|i: int|
                0 <= i < triangles.len() ==> raster_wf(
                    #[trigger] triangles[i],
                    old(fb).width as int,
                    old(fb).height as int,
                ),
            forall|i: int|
                0 <= i < triangles.len() ==> (#[trigger] triangles[i]).model_index < models.len(),
            forall|j: int| 0 <= j < models.len() ==> (#[trigger] models[j]).shader.wf(),
        ensures
            target_wf(*final(fb)),
            final(fb).width == old(fb).width,
            final(fb).height == old(fb).height,
            final(fb).size == old(fb).size,
            final(fb).depth_buffer == old(fb).depth_buffer,
            forall|px: int, py: int|
                0 <= px < old(fb).width && 0 <= py < old(fb).height ==> final(fb).color_buffer@[
                    pixel_index(old(fb).width, px, py)
                ] == color_fold(
                    triangles@,
                    models@,
                    old(fb).depth_buffer@[pixel_index(old(fb).width, px, py)] as int,
                    old(fb).color_buffer@[pixel_index(old(fb).width, px, py)],
                    px,
                    py,
                ),
    {
        let w: u32 = fb.width;
        let h: u32 = fb.height;
        let n: usize = triangles.len();
        let ghost dbuf = fb.depth_buffer@;
        let mut k: usize = 0;
        while k < n
            invariant
                n == triangles.len(),
                0 <= k <= n,
                w == old(fb).width,
                h == old(fb).height,
                1 <= w <= crate::setup::DIM_MAX,
                1 <= h <= crate::setup::DIM_MAX,
                target_wf(*fb),
                fb.width == w,
                fb.height == h,
                fb.size == old(fb).size,
                fb.depth_buffer == old(fb).depth_buffer,
                dbuf == old(fb).depth_buffer@,
                forall|i: int|
                    0 <= i < triangles.len() ==> raster_wf(#[trigger] triangles[i], w as int, h as int),
                forall|i: int|
                    0 <= i < triangles.len() ==> (#[trigger] triangles[i]).model_index
                        < models.len(),
                forall|j: int| 0 <= j < models.len() ==> (#[trigger] models[j]).shader.wf(),
                forall|px: int, py: int|
                    0 <= px < w && 0 <= py < h ==> #[trigger] fb.color_buffer@[pixel_index(
                        w,
                        px,
                        py,
                    )] == color_fold(
                        triangles@.take(k as int),
                        models@,
                        dbuf[pixel_index(w, px, py)] as int,
                        old(fb).color_buffer@[pixel_index(w, px, py)],
                        px,
                        py,
                    ),
            decreases n - k,
        {
            let t: RasterTriangle = triangles[k];
            let ghost c0 = fb.color_buffer@;
            let mut y: u32 = t.min_y;
            while y <= t.max_y
                invariant
                    raster_wf(t, w as int, h as int),
                    t.model_index < models.len(),
                    t.min_y <= y <= t.max_y + 1,
                    target_wf(*fb),
                    fb.width == w,
                    fb.height == h,
                    fb.size == old(fb).size,
                    fb.depth_buffer == old(fb).depth_buffer,
                    dbuf == old(fb).depth_buffer@,
                    1 <= w <= crate::setup::DIM_MAX,
                    1 <= h <= crate::setup::DIM_MAX,
                    c0.len() == fb.size,
                    dbuf.len() == fb.size,
                    forall|j: int| 0 <= j < models.len() ==> (#[trigger] models[j]).shader.wf(),
                    forall|px: int, py: int|
                        0 <= px < w && 0 <= py < h ==> #[trigger] fb.color_buffer@[pixel_index(
                            w,
                            px,
                            py,
                        )] == color_scan(models@, t, dbuf, c0, w, px, py, t.min_x as int, y as int),
                decreases t.max_y + 1 - y,
            {
                let mut x: u32 = t.min_x;
                while x <= t.max_x
                    invariant
                        raster_wf(t, w as int, h as int),
                        t.model_index < models.len(),
                        t.min_x <= x <= t.max_x + 1,
                        t.min_y <= y <= t.max_y,
                        target_wf(*fb),
                        fb.width == w,
                        fb.height == h,
                        fb.size == old(fb).size,
                        fb.depth_buffer == old(fb).depth_buffer,
                        dbuf == old(fb).depth_buffer@,
                        1 <= w <= crate::setup::DIM_MAX,
                        1 <= h <= crate::setup::DIM_MAX,
                        c0.len() == fb.size,
                        dbuf.len() == fb.size,
                        forall|j: int| 0 <= j < models.len() ==> (#[trigger] models[j]).shader.wf(),
                        forall|px: int, py: int|
                            0 <= px < w && 0 <= py < h ==> #[trigger] fb.color_buffer@[pixel_index(
                                w,
                                px,
                                py,
                            )] == color_scan(models@, t, dbuf, c0, w, px, py, x as int, y as int),
                    decreases t.max_x + 1 - x,
                {
                    let r = eval_depth(&t, x, y, w, h);
                    proof {
                        crate::render_target::lemma_pixel_index_bound(*fb, x as int, y as int);
                    }
                    let idx: usize = (y as usize) * (w as usize) + (x as usize);
                    if r.0 {
                        let dv: i64 = self.load_depth(fb, idx);
                        if r.1 >= dv {
                            proof {
                                lemma_weight_sum(t.v1_2d, t.v2_2d, t.v3_2d, pix(x as int, y as int));
                                lemma_depth_range(t, w as int, h as int, x as int, y as int);
                            }
                            let u = eval_attr(r.2, r.3, r.4, t.area, r.1, t.u1_over_z, t.u2_over_z, t.u3_over_z);
                            let v = eval_attr(r.2, r.3, r.4, t.area, r.1, t.v1_over_z, t.v2_over_z, t.v3_over_z);
                            let nx = eval_attr(r.2, r.3, r.4, t.area, r.1, t.nx1_over_z, t.nx2_over_z, t.nx3_over_z);
                            let ny = eval_attr(r.2, r.3, r.4, t.area, r.1, t.ny1_over_z, t.ny2_over_z, t.ny3_over_z);
                            let nz = eval_attr(r.2, r.3, r.4, t.area, r.1, t.nz1_over_z, t.nz2_over_z, t.nz3_over_z);
                            let texcoord = Vec2 { x: u, y: v };
                            let normal = Vec3 { x: nx, y: ny, z: nz };
                            proof {
                                assert(texcoord == tex_of(t, x as int, y as int));
                                assert(normal == normal_of(t, x as int, y as int));
                            }
                            let model: &Model = &models[t.model_index as usize];
                            let color: u32 = model.shader.pixel_color(texcoord, normal);
                            proof {
                                assert(color == shade_spec(models@, t, x as int, y as int));
                            }
                            self.store_color(fb, idx, color);
                        }
                    }
                    proof {
                        assert forall|px: int, py: int|
                            0 <= px < w && 0 <= py < h implies #[trigger] fb.color_buffer@[pixel_index(
                            w,
                            px,
                            py,
                        )] == color_scan(models@, t, dbuf, c0, w, px, py, x as int + 1, y as int) by {
                            crate::render_target::lemma_pixel_index_bound(*fb, px, py);
                            if px == x as int && py == y as int {
                            } else {
                                crate::render_target::lemma_pixel_index_injective(
                                    w,
                                    px,
                                    py,
                                    x as int,
                                    y as int,
                                );
                            }
                        }
                    }
                    x = x + 1;
                }
                proof {
                    assert forall|px: int, py: int|
                        0 <= px < w && 0 <= py < h implies #[trigger] fb.color_buffer@[pixel_index(
                        w,
                        px,
                        py,
                    )] == color_scan(models@, t, dbuf, c0, w, px, py, t.min_x as int, y as int + 1) by {
                        assert(fb.color_buffer@[pixel_index(w, px, py)] == color_scan(
                            models@,
                            t,
                            dbuf,
                            c0,
                            w,
                            px,
                            py,
                            t.max_x as int + 1,
                            y as int,
                        ));
                    }
                }
                y = y + 1;
            }
            proof {
                assert forall|px: int, py: int|
                    0 <= px < w && 0 <= py < h implies #[trigger] fb.color_buffer@[pixel_index(
                    w,
                    px,
                    py,
                )] == color_fold(
                    triangles@.take(k as int + 1),
                    models@,
                    dbuf[pixel_index(w, px, py)] as int,
                    old(fb).color_buffer@[pixel_index(w, px, py)],
                    px,
                    py,
                ) by {
                    let idx = pixel_index(w, px, py);
                    assert(fb.color_buffer@[idx] == color_scan(
                        models@,
                        t,
                        dbuf,
                        c0,
                        w,
                        px,
                        py,
                        t.min_x as int,
                        t.max_y as int + 1,
                    ));
                    assert(triangles@.take(k as int + 1).drop_last() =~= triangles@.take(k as int));
                    assert(triangles@.take(k as int + 1).last() == t);
                }
            }
            k = k + 1;
        }
        proof {
            assert(triangles@.take(n as int) =~= triangles@);
        }
    }

    /// Reads one depth entry.
    fn load_depth(&self, fb: &RenderTarget, idx: usize) -> (r: i64)
        requires
            idx < fb.depth_buffer.len(),
        ensures
            r == fb.depth_buffer@[idx as int],
    {
        fb.depth_buffer[idx]
    }

    /// Writes one color entry; split out so the scan loop's frame is
    /// easy to state.
    fn store_color(&self, fb: &mut RenderTarget, idx: usize, color: u32)
        requires
            target_wf(*old(fb)),
            idx < old(fb).color_buffer.len(),
        ensures
            target_wf(*final(fb)),
            final(fb).width == old(fb).width,
            final(fb).height == old(fb).height,
            final(fb).size == old(fb).size,
            final(fb).depth_buffer == old(fb).depth_buffer,
            final(fb).color_buffer@ == old(fb).color_buffer@.update(idx as int, color),
    {
        fb.color_buffer.set(idx, color);
    }

    /// Writes one depth entry; split out so the scan loop's frame is
    /// easy to state.
    fn store_depth(&self, fb: &mut RenderTarget, idx: usize, depth: i64)
        requires
            target_wf(*old(fb)),
            idx < old(fb).depth_buffer.len(),
        ensures
            target_wf(*final(fb)),
            final(fb).width == old(fb).width,
            final(fb).height == old(fb).height,
            final(fb).size == old(fb).size,
            final(fb).color_buffer == old(fb).color_buffer,
            final(fb).depth_buffer@ == old(fb).depth_buffer@.update(idx as int, depth),
    {
        fb.depth_buffer.set(idx, depth);
    }
}


/// The cumulative boundary property of the whole frustum clip: every
/// vertex that survives all six planes lies at most 24 fixed-point
/// distance units outside each of the six planes. The plane last
/// applied allows 4 units (the clipping tolerance of a unit-scale
/// normal); every later clip can erode an earlier plane's margin by
/// at most another 4.
pub proof fn lemma_frustum_clip_boundary(
    slope_x: int,
    slope_y: int,
    near: int,
    far: int,
    input: Seq<Vertex>,
)
    requires
        0 <= slope_x <= NORMAL_MAX as int,
        0 <= slope_y <= NORMAL_MAX as int,
        0 < near <= far <= COORD_MAX as int,
        poly_bounded(input, COORD_MAX as int),
    ensures
        forall|k: int, j: int|
            0 <= k < 6 && 0 <= j < clip6(frustum_spec(slope_x, slope_y, near, far), input).len()
                ==> #[trigger] dist_spec(
                frustum_spec(slope_x, slope_y, near, far)[k],
                clip6(frustum_spec(slope_x, slope_y, near, far), input)[j].position,
            ) >= -24,
{
    let fr = frustum_spec(slope_x, slope_y, near, far);
    crate::plane::lemma_frustum_planes_unit(slope_x, slope_y, near, far);
    let c0 = input;
    let c1 = clip_poly(fr[0], c0);
    let c2 = clip_poly(fr[1], c1);
    let c3 = clip_poly(fr[2], c2);
    let c4 = clip_poly(fr[3], c3);
    let c5 = clip_poly(fr[4], c4);
    let c6 = clip_poly(fr[5], c5);
    assert(clip6(fr, input) == c6);
    crate::clip_laws::lemma_clip_poly_bounded(fr[0], c0);
    crate::clip_laws::lemma_clip_poly_bounded(fr[1], c1);
    crate::clip_laws::lemma_clip_poly_bounded(fr[2], c2);
    crate::clip_laws::lemma_clip_poly_bounded(fr[3], c3);
    crate::clip_laws::lemma_clip_poly_bounded(fr[4], c4);
    crate::clip_laws::lemma_clip_poly_bounded(fr[5], c5);
    crate::clip_laws::lemma_unit_plane_eps(fr[0]);
    crate::clip_laws::lemma_unit_plane_eps(fr[1]);
    crate::clip_laws::lemma_unit_plane_eps(fr[2]);
    crate::clip_laws::lemma_unit_plane_eps(fr[3]);
    crate::clip_laws::lemma_unit_plane_eps(fr[4]);
    crate::clip_laws::lemma_unit_plane_eps(fr[5]);
    // Plane 0: its own clip leaves 4 units; later clips erode 4 each.
    crate::clip_laws::lemma_clip_boundary(fr[0], c0);
    assert forall|j: int| 0 <= j < c1.len() implies dist_spec(
        fr[0],
        (#[trigger] c1[j]).position,
    ) >= -4 by {
        assert(dist_spec(fr[0], c1[j].position) >= -crate::clip_laws::clip_eps(fr[0]));
    }
    crate::clip_laws::lemma_clip_min_dist(fr[1], fr[0], c1, -4);
    assert forall|j: int| 0 <= j < c2.len() implies dist_spec(
        fr[0],
        (#[trigger] c2[j]).position,
    ) >= -8 by {
        assert(dist_spec(fr[0], c2[j].position) >= -4
            - crate::clip_laws::erode_eps(fr[0]));
    }
    crate::clip_laws::lemma_clip_min_dist(fr[2], fr[0], c2, -8);
    assert forall|j: int| 0 <= j < c3.len() implies dist_spec(
        fr[0],
        (#[trigger] c3[j]).position,
    ) >= -12 by {
        assert(dist_spec(fr[0], c3[j].position) >= -8
            - crate::clip_laws::erode_eps(fr[0]));
    }
    crate::clip_laws::lemma_clip_min_dist(fr[3], fr[0], c3, -12);
    assert forall|j: int| 0 <= j < c4.len() implies dist_spec(
        fr[0],
        (#[trigger] c4[j]).position,
    ) >= -16 by {
        assert(dist_spec(fr[0], c4[j].position) >= -12
            - crate::clip_laws::erode_eps(fr[0]));
    }
    crate::clip_laws::lemma_clip_min_dist(fr[4], fr[0], c4, -16);
    assert forall|j: int| 0 <= j < c5.len() implies dist_spec(
        fr[0],
        (#[trigger] c5[j]).position,
    ) >= -20 by {
        assert(dist_spec(fr[0], c5[j].position) >= -16
            - crate::clip_laws::erode_eps(fr[0]));
    }
    crate::clip_laws::lemma_clip_min_dist(fr[5], fr[0], c5, -20);
    assert forall|j: int| 0 <= j < c6.len() implies dist_spec(
        fr[0],
        (#[trigger] c6[j]).position,
    ) >= -24 by {
        assert(dist_spec(fr[0], c6[j].position) >= -20
            - crate::clip_laws::erode_eps(fr[0]));
    }
    // Plane 1: its own clip leaves 4 units; later clips erode 4 each.
    crate::clip_laws::lemma_clip_boundary(fr[1], c1);
    assert forall|j: int| 0 <= j < c2.len() implies dist_spec(
        fr[1],
        (#[trigger] c2[j]).position,
    ) >= -4 by {
        assert(dist_spec(fr[1], c2[j].position) >= -crate::clip_laws::clip_eps(fr[1]));
    }
    crate::clip_laws::lemma_clip_min_dist(fr[2], fr[1], c2, -4);
    assert forall|j: int| 0 <= j < c3.len() implies dist_spec(
        fr[1],
        (#[trigger] c3[j]).position,
    ) >= -8 by {
        assert(dist_spec(fr[1], c3[j].position) >= -4
            - crate::clip_laws::erode_eps(fr[1]));
    }
    crate::clip_laws::lemma_clip_min_dist(fr[3], fr[1], c3, -8);
    assert forall|j: int| 0 <= j < c4.len() implies dist_spec(
        fr[1],
        (#[trigger] c4[j]).position,
    ) >= -12 by {
        assert(dist_spec(fr[1], c4[j].position) >= -8
            - crate::clip_laws::erode_eps(fr[1]));
    }
    crate::clip_laws::lemma_clip_min_dist(fr[4], fr[1], c4, -12);
    assert forall|j: int| 0 <= j < c5.len() implies dist_spec(
        fr[1],
        (#[trigger] c5[j]).position,
    ) >= -16 by {
        assert(dist_spec(fr[1], c5[j].position) >= -12
            - crate::clip_laws::erode_eps(fr[1]));
    }
    crate::clip_laws::lemma_clip_min_dist(fr[5], fr[1], c5, -16);
    assert forall|j: int| 0 <= j < c6.len() implies dist_spec(
        fr[1],
        (#[trigger] c6[j]).position,
    ) >= -20 by {
        assert(dist_spec(fr[1], c6[j].position) >= -16
            - crate::clip_laws::erode_eps(fr[1]));
    }
    // Plane 2: its own clip leaves 4 units; later clips erode 4 each.
    crate::clip_laws::lemma_clip_boundary(fr[2], c2);
    assert forall|j: int| 0 <= j < c3.len() implies dist_spec(
        fr[2],
        (#[trigger] c3[j]).position,
    ) >= -4 by {
        assert(dist_spec(fr[2], c3[j].position) >= -crate::clip_laws::clip_eps(fr[2]));
    }
    crate::clip_laws::lemma_clip_min_dist(fr[3], fr[2], c3, -4);
    assert forall|j: int| 0 <= j < c4.len() implies dist_spec(
        fr[2],
        (#[trigger] c4[j]).position,
    ) >= -8 by {
        assert(dist_spec(fr[2], c4[j].position) >= -4
            - crate::clip_laws::erode_eps(fr[2]));
    }
    crate::clip_laws::lemma_clip_min_dist(fr[4], fr[2], c4, -8);
    assert forall|j: int| 0 <= j < c5.len() implies dist_spec(
        fr[2],
        (#[trigger] c5[j]).position,
    ) >= -12 by {
        assert(dist_spec(fr[2], c5[j].position) >= -8
            - crate::clip_laws::erode_eps(fr[2]));
    }
    crate::clip_laws::lemma_clip_min_dist(fr[5], fr[2], c5, -12);
    assert forall|j: int| 0 <= j < c6.len() implies dist_spec(
        fr[2],
        (#[trigger] c6[j]).position,
    ) >= -16 by {
        assert(dist_spec(fr[2], c6[j].position) >= -12
            - crate::clip_laws::erode_eps(fr[2]));
    }
    // Plane 3: its own clip leaves 4 units; later clips erode 4 each.
    crate::clip_laws::lemma_clip_boundary(fr[3], c3);
    assert forall|j: int| 0 <= j < c4.len() implies dist_spec(
        fr[3],
        (#[trigger] c4[j]).position,
    ) >= -4 by {
        assert(dist_spec(fr[3], c4[j].position) >= -crate::clip_laws::clip_eps(fr[3]));
    }
    crate::clip_laws::lemma_clip_min_dist(fr[4], fr[3], c4, -4);
    assert forall|j: int| 0 <= j < c5.len() implies dist_spec(
        fr[3],
        (#[trigger] c5[j]).position,
    ) >= -8 by {
        assert(dist_spec(fr[3], c5[j].position) >= -4
            - crate::clip_laws::erode_eps(fr[3]));
    }
    crate::clip_laws::lemma_clip_min_dist(fr[5], fr[3], c5, -8);
    assert forall|j: int| 0 <= j < c6.len() implies dist_spec(
        fr[3],
        (#[trigger] c6[j]).position,
    ) >= -12 by {
        assert(dist_spec(fr[3], c6[j].position) >= -8
            - crate::clip_laws::erode_eps(fr[3]));
    }
    // Plane 4: its own clip leaves 4 units; later clips erode 4 each.
    crate::clip_laws::lemma_clip_boundary(fr[4], c4);
    assert forall|j: int| 0 <= j < c5.len() implies dist_spec(
        fr[4],
        (#[trigger] c5[j]).position,
    ) >= -4 by {
        assert(dist_spec(fr[4], c5[j].position) >= -crate::clip_laws::clip_eps(fr[4]));
    }
    crate::clip_laws::lemma_clip_min_dist(fr[5], fr[4], c5, -4);
    assert forall|j: int| 0 <= j < c6.len() implies dist_spec(
        fr[4],
        (#[trigger] c6[j]).position,
    ) >= -8 by {
        assert(dist_spec(fr[4], c6[j].position) >= -4
            - crate::clip_laws::erode_eps(fr[4]));
    }
    // Plane 5: its own clip leaves 4 units; later clips erode 4 each.
    crate::clip_laws::lemma_clip_boundary(fr[5], c5);
    assert forall|j: int| 0 <= j < c6.len() implies dist_spec(
        fr[5],
        (#[trigger] c6[j]).position,
    ) >= -4 by {
        assert(dist_spec(fr[5], c6[j].position) >= -crate::clip_laws::clip_eps(fr[5]));
    }
    assert forall|k: int, j: int|
        0 <= k < 6 && 0 <= j < c6.len() implies #[trigger] dist_spec(fr[k], c6[j].position)
        >= -24 by {
        if k == 0 {
            assert(dist_spec(fr[0], c6[j].position) >= -24);
        } else if k == 1 {
            assert(dist_spec(fr[1], c6[j].position) >= -24);
        } else if k == 2 {
            assert(dist_spec(fr[2], c6[j].position) >= -24);
        } else if k == 3 {
            assert(dist_spec(fr[3], c6[j].position) >= -24);
        } else if k == 4 {
            assert(dist_spec(fr[4], c6[j].position) >= -20);
        } else {
            assert(dist_spec(fr[5], c6[j].position) >= -4);
        }
    }
}


/// The cumulative discard property of the whole frustum clip: a
/// polygon that lies outside any single plane by a margin of
/// `1 + 4 * k` distance units (where `k` is how many clips run before
/// that plane's) is clipped away entirely, and the pipeline
/// contributes no triangle for it. The margin absorbs the rounding
/// drift the earlier clips can add.
pub proof fn lemma_frustum_clip_discards(
    slope_x: int,
    slope_y: int,
    near: int,
    far: int,
    input: Seq<Vertex>,
    k: int,
)
    requires
        0 <= slope_x <= NORMAL_MAX as int,
        0 <= slope_y <= NORMAL_MAX as int,
        0 < near <= far <= COORD_MAX as int,
        poly_bounded(input, COORD_MAX as int),
        0 <= k < 6,
        forall|i: int|
            0 <= i < input.len() ==> dist_spec(
                frustum_spec(slope_x, slope_y, near, far)[k],
                (#[trigger] input[i]).position,
            ) <= -(1 + 4 * k),
    ensures
        clip6(frustum_spec(slope_x, slope_y, near, far), input) == Seq::<Vertex>::empty(),
{
    let fr = frustum_spec(slope_x, slope_y, near, far);
    crate::plane::lemma_frustum_planes_unit(slope_x, slope_y, near, far);
    let c0 = input;
    let c1 = clip_poly(fr[0], c0);
    let c2 = clip_poly(fr[1], c1);
    let c3 = clip_poly(fr[2], c2);
    let c4 = clip_poly(fr[3], c3);
    let c5 = clip_poly(fr[4], c4);
    let c6 = clip_poly(fr[5], c5);
    crate::clip_laws::lemma_clip_poly_bounded(fr[0], c0);
    crate::clip_laws::lemma_clip_poly_bounded(fr[1], c1);
    crate::clip_laws::lemma_clip_poly_bounded(fr[2], c2);
    crate::clip_laws::lemma_clip_poly_bounded(fr[3], c3);
    crate::clip_laws::lemma_clip_poly_bounded(fr[4], c4);
    crate::clip_laws::lemma_unit_plane_eps(fr[0]);
    crate::clip_laws::lemma_unit_plane_eps(fr[1]);
    crate::clip_laws::lemma_unit_plane_eps(fr[2]);
    crate::clip_laws::lemma_unit_plane_eps(fr[3]);
    crate::clip_laws::lemma_unit_plane_eps(fr[4]);
    crate::clip_laws::lemma_unit_plane_eps(fr[5]);
    if k == 0 {
        assert(crate::clip_laws::all_outside(fr[0], c0));
        crate::clip_laws::lemma_clip_outside(fr[0], c0);
        assert(c2 =~= Seq::<Vertex>::empty());
        assert(c3 =~= Seq::<Vertex>::empty());
        assert(c4 =~= Seq::<Vertex>::empty());
        assert(c5 =~= Seq::<Vertex>::empty());
        assert(c6 =~= Seq::<Vertex>::empty());
    } else if k == 1 {
        crate::clip_laws::lemma_clip_max_dist(fr[0], fr[1], c0, -5);
        assert forall|j: int| 0 <= j < c1.len() implies dist_spec(
            fr[1],
            (#[trigger] c1[j]).position,
        ) <= -1 by {
            assert(dist_spec(fr[1], c1[j].position) <= -5
                + crate::clip_laws::erode_eps(fr[1]));
        }
        assert(crate::clip_laws::all_outside(fr[1], c1));
        crate::clip_laws::lemma_clip_outside(fr[1], c1);
        assert(c3 =~= Seq::<Vertex>::empty());
        assert(c4 =~= Seq::<Vertex>::empty());
        assert(c5 =~= Seq::<Vertex>::empty());
        assert(c6 =~= Seq::<Vertex>::empty());
    } else if k == 2 {
        crate::clip_laws::lemma_clip_max_dist(fr[0], fr[2], c0, -9);
        assert forall|j: int| 0 <= j < c1.len() implies dist_spec(
            fr[2],
            (#[trigger] c1[j]).position,
        ) <= -5 by {
            assert(dist_spec(fr[2], c1[j].position) <= -9
                + crate::clip_laws::erode_eps(fr[2]));
        }
        crate::clip_laws::lemma_clip_max_dist(fr[1], fr[2], c1, -5);
        assert forall|j: int| 0 <= j < c2.len() implies dist_spec(
            fr[2],
            (#[trigger] c2[j]).position,
        ) <= -1 by {
            assert(dist_spec(fr[2], c2[j].position) <= -5
                + crate::clip_laws::erode_eps(fr[2]));
        }
        assert(crate::clip_laws::all_outside(fr[2], c2));
        crate::clip_laws::lemma_clip_outside(fr[2], c2);
        assert(c4 =~= Seq::<Vertex>::empty());
        assert(c5 =~= Seq::<Vertex>::empty());
        assert(c6 =~= Seq::<Vertex>::empty());
    } else if k == 3 {
        crate::clip_laws::lemma_clip_max_dist(fr[0], fr[3], c0, -13);
        assert forall|j: int| 0 <= j < c1.len() implies dist_spec(
            fr[3],
            (#[trigger] c1[j]).position,
        ) <= -9 by {
            assert(dist_spec(fr[3], c1[j].position) <= -13
                + crate::clip_laws::erode_eps(fr[3]));
        }
        crate::clip_laws::lemma_clip_max_dist(fr[1], fr[3], c1, -9);
        assert forall|j: int| 0 <= j < c2.len() implies dist_spec(
            fr[3],
            (#[trigger] c2[j]).position,
        ) <= -5 by {
            assert(dist_spec(fr[3], c2[j].position) <= -9
                + crate::clip_laws::erode_eps(fr[3]));
        }
        crate::clip_laws::lemma_clip_max_dist(fr[2], fr[3], c2, -5);
        assert forall|j: int| 0 <= j < c3.len() implies dist_spec(
            fr[3],
            (#[trigger] c3[j]).position,
        ) <= -1 by {
            assert(dist_spec(fr[3], c3[j].position) <= -5
                + crate::clip_laws::erode_eps(fr[3]));
        }
        assert(crate::clip_laws::all_outside(fr[3], c3));
        crate::clip_laws::lemma_clip_outside(fr[3], c3);
        assert(c5 =~= Seq::<Vertex>::empty());
        assert(c6 =~= Seq::<Vertex>::empty());
    } else if k == 4 {
        crate::clip_laws::lemma_clip_max_dist(fr[0], fr[4], c0, -17);
        assert forall|j: int| 0 <= j < c1.len() implies dist_spec(
            fr[4],
            (#[trigger] c1[j]).position,
        ) <= -13 by {
            assert(dist_spec(fr[4], c1[j].position) <= -17
                + crate::clip_laws::erode_eps(fr[4]));
        }
        crate::clip_laws::lemma_clip_max_dist(fr[1], fr[4], c1, -13);
        assert forall|j: int| 0 <= j < c2.len() implies dist_spec(
            fr[4],
            (#[trigger] c2[j]).position,
        ) <= -9 by {
            assert(dist_spec(fr[4], c2[j].position) <= -13
                + crate::clip_laws::erode_eps(fr[4]));
        }
        crate::clip_laws::lemma_clip_max_dist(fr[2], fr[4], c2, -9);
        assert forall|j: int| 0 <= j < c3.len() implies dist_spec(
            fr[4],
            (#[trigger] c3[j]).position,
        ) <= -5 by {
            assert(dist_spec(fr[4], c3[j].position) <= -9
                + crate::clip_laws::erode_eps(fr[4]));
        }
        crate::clip_laws::lemma_clip_max_dist(fr[3], fr[4], c3, -5);
        assert forall|j: int| 0 <= j < c4.len() implies dist_spec(
            fr[4],
            (#[trigger] c4[j]).position,
        ) <= -1 by {
            assert(dist_spec(fr[4], c4[j].position) <= -5
                + crate::clip_laws::erode_eps(fr[4]));
        }
        assert(crate::clip_laws::all_outside(fr[4], c4));
        crate::clip_laws::lemma_clip_outside(fr[4], c4);
        assert(c6 =~= Seq::<Vertex>::empty());
    } else {
        crate::clip_laws::lemma_clip_max_dist(fr[0], fr[5], c0, -21);
        assert forall|j: int| 0 <= j < c1.len() implies dist_spec(
            fr[5],
            (#[trigger] c1[j]).position,
        ) <= -17 by {
            assert(dist_spec(fr[5], c1[j].position) <= -21
                + crate::clip_laws::erode_eps(fr[5]));
        }
        crate::clip_laws::lemma_clip_max_dist(fr[1], fr[5], c1, -17);
        assert forall|j: int| 0 <= j < c2.len() implies dist_spec(
            fr[5],
            (#[trigger] c2[j]).position,
        ) <= -13 by {
            assert(dist_spec(fr[5], c2[j].position) <= -17
                + crate::clip_laws::erode_eps(fr[5]));
        }
        crate::clip_laws::lemma_clip_max_dist(fr[2], fr[5], c2, -13);
        assert forall|j: int| 0 <= j < c3.len() implies dist_spec(
            fr[5],
            (#[trigger] c3[j]).position,
        ) <= -9 by {
            assert(dist_spec(fr[5], c3[j].position) <= -13
                + crate::clip_laws::erode_eps(fr[5]));
        }
        crate::clip_laws::lemma_clip_max_dist(fr[3], fr[5], c3, -9);
        assert forall|j: int| 0 <= j < c4.len() implies dist_spec(
            fr[5],
            (#[trigger] c4[j]).position,
        ) <= -5 by {
            assert(dist_spec(fr[5], c4[j].position) <= -9
                + crate::clip_laws::erode_eps(fr[5]));
        }
        crate::clip_laws::lemma_clip_max_dist(fr[4], fr[5], c4, -5);
        assert forall|j: int| 0 <= j < c5.len() implies dist_spec(
            fr[5],
            (#[trigger] c5[j]).position,
        ) <= -1 by {
            assert(dist_spec(fr[5], c5[j].position) <= -5
                + crate::clip_laws::erode_eps(fr[5]));
        }
        assert(crate::clip_laws::all_outside(fr[5], c5));
        crate::clip_laws::lemma_clip_outside(fr[5], c5);
    }
}

} // verus!

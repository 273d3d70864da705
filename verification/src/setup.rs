//! Triangle setup: projection to screen space, backface culling,
//! bounding box, and per-vertex perspective-correction terms.
//!
//! Screen space is measured in sub-pixel units (`SUB` per pixel) so
//! that pixel centers and edge functions are exact integers.

use vstd::prelude::*;
use crate::fx::{div_floor_i128, mul_wide, COORD_MAX, NORMAL_MAX, ONE, SUB};
use crate::vectors::{Vec2, Vec3, vec2_bounded, vec3_bounded};
use crate::vertex::{vertex_bounded, Vertex};

verus! {

/// Projected screen coordinates are clamped to this many sub-pixel
/// units (2^24, i.e. 65536 pixels) on either side of the origin.
pub const SCREEN_LIM: i64 = 0x100_0000;

/// Largest magnitude of a per-vertex perspective term
/// (`attribute / z` or `1 / z`) in fixed point (2^46).
pub const OZ_MAX: i64 = 0x4000_0000_0000;

/// Largest render-target extent the pipeline projects into.
pub const DIM_MAX: u32 = 0x4000;

/// The signed-area edge function: positive when `c` lies to the left
/// of the directed edge `a -> b` in screen space.
pub open spec fn edge_spec(a: Vec2, b: Vec2, c: Vec2) -> int {
    (c.x - a.x) * (b.y - a.y) - (c.y - a.y) * (b.x - a.x)
}

/// Clamps a projected coordinate into the representable screen range.
pub open spec fn sclamp(v: int) -> int {
    if v < -(SCREEN_LIM as int) {
        -(SCREEN_LIM as int)
    } else if v > SCREEN_LIM as int {
        SCREEN_LIM as int
    } else {
        v
    }
}

/// One projected screen coordinate in sub-pixel units: the screen
/// center (half of `center_extent`) plus `coord * pixelsPerWorldUnit`,
/// where the pixel density is `height / (2 * tanHalfFov)` scaled by
/// the depth `-z`. The density uses the target height for both axes,
/// so a non-square target widens the view instead of stretching it.
pub open spec fn proj_comp(c: int, center_extent: int, height: int, thf: int, z: int) -> int {
    center_extent * (SUB as int) / 2 + (c * height * (SUB as int) * (ONE as int)) / (2 * thf * (
    -z))
}

/// The screen-space image of a camera-space point: clamped projected
/// x and y in sub-pixel units, camera-space z kept as the depth.
pub open spec fn screen_spec(v: Vec3, width: int, height: int, thf: int) -> Vec3 {
    Vec3 {
        x: sclamp(proj_comp(v.x as int, width, height, thf, v.z as int)) as i64,
        y: sclamp(proj_comp(-(v.y as int), height, height, thf, v.z as int)) as i64,
        z: v.z,
    }
}

/// The signed-area edge function over exact sub-pixel integers.
pub fn edge(a: Vec2, b: Vec2, c: Vec2) -> (r: i64)
    requires
        vec2_bounded(a, SCREEN_LIM as int),
        vec2_bounded(b, SCREEN_LIM as int),
        vec2_bounded(c, SCREEN_LIM as int),
    ensures
        r == edge_spec(a, b, c),
        -0x4_0000_0000_0000_0000 <= r <= 0x4_0000_0000_0000_0000,
{
    let p1: i128 = mul_wide(c.x - a.x, b.y - a.y);
    let p2: i128 = mul_wide(c.y - a.y, b.x - a.x);
    proof {
        crate::fx::lemma_mul_bound_abs(
            c.x as int - a.x as int,
            b.y as int - a.y as int,
            2 * (SCREEN_LIM as int),
        );
        crate::fx::lemma_mul_bound_abs(
            c.y as int - a.y as int,
            b.x as int - a.x as int,
            2 * (SCREEN_LIM as int),
        );
        assert(-0x4_0000_0000_0000 <= p1 <= 0x4_0000_0000_0000);
        assert(-0x4_0000_0000_0000 <= p2 <= 0x4_0000_0000_0000);
    }
    (p1 - p2) as i64
}

/// Projects one camera-space coordinate to a clamped sub-pixel screen
/// coordinate. `c` is the (possibly negated) camera-space coordinate,
/// `center_extent` the matching target extent in pixels, and `height`
/// the extent that sets the pixel density.
fn project_comp(c: i64, center_extent: u32, height: u32, thf: i64, z: i64) -> (r: i64)
    requires
        -COORD_MAX <= c <= COORD_MAX,
        1 <= center_extent <= DIM_MAX,
        1 <= height <= DIM_MAX,
        0 < thf <= NORMAL_MAX,
        -COORD_MAX <= z < 0,
    ensures
        r == sclamp(proj_comp(c as int, center_extent as int, height as int, thf as int, z as int)),
{
    let center: i64 = (center_extent as i64) * SUB / 2;
    proof {
        crate::fx::lemma_mul_bound2(c as int, height as int, COORD_MAX as int, DIM_MAX as int);
        crate::fx::lemma_mul_bound2(
            (c as int) * (height as int),
            (SUB as int) * (ONE as int),
            (COORD_MAX as int) * (DIM_MAX as int),
            (SUB as int) * (ONE as int),
        );
        crate::fx::lemma_mul_bound2(2 * (thf as int), -(z as int), 2 * (NORMAL_MAX as int), COORD_MAX as int);
        assert(2 * (thf as int) * (-(z as int)) > 0) by (nonlinear_arith)
            requires
                thf > 0,
                z < 0,
        ;
        assert((center_extent as int) * (SUB as int) / 2 == center) by {
            assert((center_extent as int) * (SUB as int) == (center_extent as i64 * SUB) as int);
        }
    }
    let num: i128 = (c as i128) * (height as i128) * ((SUB as i128) * (ONE as i128));
    let den: i128 = 2 * (thf as i128) * (-(z as i128));
    proof {
        crate::fx::lemma_div_bound(
            num as int,
            den as int,
            (COORD_MAX as int) * (DIM_MAX as int) * ((SUB as int) * (ONE as int)),
        );
    }
    let q: i128 = div_floor_i128(num, den);
    let shifted: i128 = (center as i128) + q;
    if shifted < -(SCREEN_LIM as i128) {
        -SCREEN_LIM
    } else if shifted > SCREEN_LIM as i128 {
        SCREEN_LIM
    } else {
        proof {
            assert(proj_comp(c as int, center_extent as int, height as int, thf as int, z as int)
                == shifted as int);
        }
        shifted as i64
    }
}

/// An ephemeral, per-frame triangle prepared for scan conversion:
/// screen-space corners, clamped bounding box, positive signed area,
/// reciprocal depths, and perspective-divided attribute terms.
#[derive(Clone, Copy, PartialEq, Eq, Structural, Debug)]
pub struct RasterTriangle {
    pub min_x: u32,
    pub max_x: u32,
    pub min_y: u32,
    pub max_y: u32,
    pub v1_2d: Vec2,
    pub v2_2d: Vec2,
    pub v3_2d: Vec2,
    pub area: i64,
    pub inv_z1: i64,
    pub inv_z2: i64,
    pub inv_z3: i64,
    pub u1_over_z: i64,
    pub v1_over_z: i64,
    pub u2_over_z: i64,
    pub v2_over_z: i64,
    pub u3_over_z: i64,
    pub v3_over_z: i64,
    pub nx1_over_z: i64,
    pub ny1_over_z: i64,
    pub nz1_over_z: i64,
    pub nx2_over_z: i64,
    pub ny2_over_z: i64,
    pub nz2_over_z: i64,
    pub nx3_over_z: i64,
    pub ny3_over_z: i64,
    pub nz3_over_z: i64,
    pub model_index: u32,
}

/// What the rasterizer relies on of a prepared triangle: a bounding
/// box inside the target, bounded corners, a positive area that is
/// exactly the corners' edge function, and bounded reciprocal terms
/// with every `1/z` at most `-1`.
pub open spec fn raster_wf(t: RasterTriangle, width: int, height: int) -> bool {
    t.min_x <= t.max_x && (t.max_x as int) < width && t.min_y <= t.max_y && (t.max_y as int)
        < height && vec2_bounded(t.v1_2d, SCREEN_LIM as int) && vec2_bounded(
        t.v2_2d,
        SCREEN_LIM as int,
    ) && vec2_bounded(t.v3_2d, SCREEN_LIM as int) && t.area == edge_spec(
        t.v1_2d,
        t.v2_2d,
        t.v3_2d,
    ) && t.area >= 1 && -0x1_0000_0000 <= t.inv_z1 <= -1 && -0x1_0000_0000 <= t.inv_z2 <= -1
        && -0x1_0000_0000 <= t.inv_z3 <= -1 && -OZ_MAX <= t.u1_over_z <= OZ_MAX && -OZ_MAX
        <= t.v1_over_z <= OZ_MAX && -OZ_MAX <= t.u2_over_z <= OZ_MAX && -OZ_MAX <= t.v2_over_z
        <= OZ_MAX && -OZ_MAX <= t.u3_over_z <= OZ_MAX && -OZ_MAX <= t.v3_over_z <= OZ_MAX
        && -OZ_MAX <= t.nx1_over_z <= OZ_MAX && -OZ_MAX <= t.ny1_over_z <= OZ_MAX && -OZ_MAX
        <= t.nz1_over_z <= OZ_MAX && -OZ_MAX <= t.nx2_over_z <= OZ_MAX && -OZ_MAX <= t.ny2_over_z
        <= OZ_MAX && -OZ_MAX <= t.nz2_over_z <= OZ_MAX && -OZ_MAX <= t.nx3_over_z <= OZ_MAX
        && -OZ_MAX <= t.ny3_over_z <= OZ_MAX && -OZ_MAX <= t.nz3_over_z <= OZ_MAX
}

/// The fixed-point reciprocal of a camera-space depth `z < 0`.
pub open spec fn inv_z_spec(z: int) -> int {
    -((ONE as int) * (ONE as int) / (-z))
}

/// An attribute divided by depth: `attr * (1/z)` in fixed point.
pub open spec fn oz_spec(attr: int, iz: int) -> int {
    (attr * iz) / (ONE as int)
}

/// The pixel of a sub-pixel coordinate, rounding down.
pub open spec fn px_floor(s: int) -> int {
    s / (SUB as int)
}

/// The pixel of a sub-pixel coordinate, rounding up.
pub open spec fn px_ceil(s: int) -> int {
    (s + SUB - 1) / (SUB as int)
}

/// The prepared triangle (or the decision to discard) for one
/// camera-space triangle: projection, backface cull, clamped bounding
/// box, and the perspective-correction terms.
pub open spec fn process_spec(
    v1: Vertex,
    v2: Vertex,
    v3: Vertex,
    width: int,
    height: int,
    thf: int,
    model_index: u32,
) -> Option<RasterTriangle> {
    let p1 = screen_spec(v1.position, width, height, thf);
    let p2 = screen_spec(v2.position, width, height, thf);
    let p3 = screen_spec(v3.position, width, height, thf);
    let a = Vec2 { x: p1.x, y: p1.y };
    let b = Vec2 { x: p2.x, y: p2.y };
    let c = Vec2 { x: p3.x, y: p3.y };
    let area = edge_spec(a, b, c);
    if area <= 0 {
        None
    } else {
        let minx = vstd::math::max(px_floor(vstd::math::min(a.x as int, vstd::math::min(b.x as int, c.x as int))), 0);
        let maxx = vstd::math::min(px_ceil(vstd::math::max(a.x as int, vstd::math::max(b.x as int, c.x as int))), width - 1);
        let miny = vstd::math::max(px_floor(vstd::math::min(a.y as int, vstd::math::min(b.y as int, c.y as int))), 0);
        let maxy = vstd::math::min(px_ceil(vstd::math::max(a.y as int, vstd::math::max(b.y as int, c.y as int))), height - 1);
        if maxx < minx || maxy < miny {
            None
        } else {
            let iz1 = inv_z_spec(v1.position.z as int);
            let iz2 = inv_z_spec(v2.position.z as int);
            let iz3 = inv_z_spec(v3.position.z as int);
            Some(
                RasterTriangle {
                    min_x: minx as u32,
                    max_x: maxx as u32,
                    min_y: miny as u32,
                    max_y: maxy as u32,
                    v1_2d: a,
                    v2_2d: b,
                    v3_2d: c,
                    area: area as i64,
                    inv_z1: iz1 as i64,
                    inv_z2: iz2 as i64,
                    inv_z3: iz3 as i64,
                    u1_over_z: oz_spec(v1.texcoord.x as int, iz1) as i64,
                    v1_over_z: oz_spec(v1.texcoord.y as int, iz1) as i64,
                    u2_over_z: oz_spec(v2.texcoord.x as int, iz2) as i64,
                    v2_over_z: oz_spec(v2.texcoord.y as int, iz2) as i64,
                    u3_over_z: oz_spec(v3.texcoord.x as int, iz3) as i64,
                    v3_over_z: oz_spec(v3.texcoord.y as int, iz3) as i64,
                    nx1_over_z: oz_spec(v1.normal.x as int, iz1) as i64,
                    ny1_over_z: oz_spec(v1.normal.y as int, iz1) as i64,
                    nz1_over_z: oz_spec(v1.normal.z as int, iz1) as i64,
                    nx2_over_z: oz_spec(v2.normal.x as int, iz2) as i64,
                    ny2_over_z: oz_spec(v2.normal.y as int, iz2) as i64,
                    nz2_over_z: oz_spec(v2.normal.z as int, iz2) as i64,
                    nx3_over_z: oz_spec(v3.normal.x as int, iz3) as i64,
                    ny3_over_z: oz_spec(v3.normal.y as int, iz3) as i64,
                    nz3_over_z: oz_spec(v3.normal.z as int, iz3) as i64,
                    model_index,
                },
            )
        }
    }
}

/// The reciprocal depth of a bounded camera-space `z < 0` lies in
/// `[-ONE*ONE, -1]`.
pub proof fn lemma_inv_z_range(z: int)
    requires
        -(COORD_MAX as int) <= z <= -1,
    ensures
        -0x1_0000_0000 <= inv_z_spec(z) <= -1,
{
    let zz = -z;
    let oo2 = (ONE as int) * (ONE as int);
    assert(oo2 == 0x1_0000_0000);
    vstd::arithmetic::div_mod::lemma_div_is_ordered(zz, oo2, zz);
    vstd::arithmetic::div_mod::lemma_div_by_self(zz);
    crate::fx::lemma_div_bound(oo2, zz, oo2);
}

/// An attribute-over-depth term of bounded inputs is bounded by
/// `OZ_MAX`.
pub proof fn lemma_oz_range(attr: int, iz: int)
    requires
        -(COORD_MAX as int) <= attr <= COORD_MAX as int,
        -0x1_0000_0000 <= iz <= 0,
    ensures
        -OZ_MAX <= oz_spec(attr, iz) <= OZ_MAX,
{
    crate::fx::lemma_mul_bound2(attr, iz, COORD_MAX as int, 0x1_0000_0000);
    crate::fx::lemma_div_bound(attr * iz, ONE as int, (COORD_MAX as int) * 0x1_0000_0000);
    assert(((COORD_MAX as int) * 0x1_0000_0000) / (ONE as int) == OZ_MAX as int)
        by (nonlinear_arith);
    vstd::arithmetic::div_mod::lemma_div_is_ordered(
        attr * iz,
        (COORD_MAX as int) * 0x1_0000_0000,
        ONE as int,
    );
    vstd::arithmetic::div_mod::lemma_div_is_ordered(
        -((COORD_MAX as int) * 0x1_0000_0000),
        attr * iz,
        ONE as int,
    );
    assert((-((COORD_MAX as int) * 0x1_0000_0000)) / (ONE as int) == -(OZ_MAX as int))
        by (nonlinear_arith);
}

/// Computes the reciprocal depth of a camera-space `z`.
fn inv_z(z: i64) -> (r: i64)
    requires
        -COORD_MAX <= z <= -1,
    ensures
        r == inv_z_spec(z as int),
        -0x1_0000_0000 <= r <= -1,
{
    proof {
        lemma_inv_z_range(z as int);
    }
    -crate::fx::div_floor_i64(ONE * ONE, -z)
}

/// Computes an attribute-over-depth term.
fn attr_over_z(attr: i64, iz: i64) -> (r: i64)
    requires
        -COORD_MAX <= attr <= COORD_MAX,
        -0x1_0000_0000 <= iz <= 0,
    ensures
        r == oz_spec(attr as int, iz as int),
        -OZ_MAX <= r <= OZ_MAX,
{
    proof {
        lemma_oz_range(attr as int, iz as int);
        crate::fx::lemma_mul_bound2(attr as int, iz as int, COORD_MAX as int, 0x1_0000_0000);
    }
    div_floor_i128(mul_wide(attr, iz), ONE as i128) as i64
}

/// Projects one triangle to screen space, culls backfaces and
/// off-target boxes, and precomputes the interpolation terms.
/// `None` is a normal discard, never an error; in particular a
/// triangle whose screen-space winding yields `area <= 0` is discarded.
pub fn process_screen_tri(
    v1: &Vertex,
    v2: &Vertex,
    v3: &Vertex,
    width: u32,
    height: u32,
    thf: i64,
    model_index: u32,
) -> (r: Option<RasterTriangle>)
    requires
        vertex_bounded(*v1, COORD_MAX as int),
        vertex_bounded(*v2, COORD_MAX as int),
        vertex_bounded(*v3, COORD_MAX as int),
        v1.position.z <= -1,
        v2.position.z <= -1,
        v3.position.z <= -1,
        1 <= width <= DIM_MAX,
        1 <= height <= DIM_MAX,
        0 < thf <= NORMAL_MAX,
    ensures
        r == process_spec(
            *v1,
            *v2,
            *v3,
            width as int,
            height as int,
            thf as int,
            model_index,
        ),
        r is Some ==> raster_wf(r.unwrap(), width as int, height as int),
        r is Some ==> r.unwrap().model_index == model_index,
        ({
            let p1 = screen_spec(v1.position, width as int, height as int, thf as int);
            let p2 = screen_spec(v2.position, width as int, height as int, thf as int);
            let p3 = screen_spec(v3.position, width as int, height as int, thf as int);
            edge_spec(
                Vec2 { x: p1.x, y: p1.y },
                Vec2 { x: p2.x, y: p2.y },
                Vec2 { x: p3.x, y: p3.y },
            ) <= 0
        }) ==> r is None,
{
    let p1 = vertex_to_screen(v1.position, width, height, thf);
    let p2 = vertex_to_screen(v2.position, width, height, thf);
    let p3 = vertex_to_screen(v3.position, width, height, thf);
    let a = Vec2 { x: p1.x, y: p1.y };
    let b = Vec2 { x: p2.x, y: p2.y };
    let c = Vec2 { x: p3.x, y: p3.y };
    let area: i64 = edge(a, b, c);
    if area <= 0 {
        return None;
    }
    let minx_s: i64 = if a.x < b.x {
        if a.x < c.x {
            a.x
        } else {
            c.x
        }
    } else {
        if b.x < c.x {
            b.x
        } else {
            c.x
        }
    };
    let maxx_s: i64 = if a.x > b.x {
        if a.x > c.x {
            a.x
        } else {
            c.x
        }
    } else {
        if b.x > c.x {
            b.x
        } else {
            c.x
        }
    };
    let miny_s: i64 = if a.y < b.y {
        if a.y < c.y {
            a.y
        } else {
            c.y
        }
    } else {
        if b.y < c.y {
            b.y
        } else {
            c.y
        }
    };
    let maxy_s: i64 = if a.y > b.y {
        if a.y > c.y {
            a.y
        } else {
            c.y
        }
    } else {
        if b.y > c.y {
            b.y
        } else {
            c.y
        }
    };
    let minx_p: i64 = crate::fx::div_floor_i64(minx_s, SUB);
    let maxx_p: i64 = crate::fx::div_floor_i64(maxx_s + SUB - 1, SUB);
    let miny_p: i64 = crate::fx::div_floor_i64(miny_s, SUB);
    let maxy_p: i64 = crate::fx::div_floor_i64(maxy_s + SUB - 1, SUB);
    let minx: i64 = if minx_p < 0 {
        0
    } else {
        minx_p
    };
    let miny: i64 = if miny_p < 0 {
        0
    } else {
        miny_p
    };
    let maxx: i64 = if maxx_p > width as i64 - 1 {
        width as i64 - 1
    } else {
        maxx_p
    };
    let maxy: i64 = if maxy_p > height as i64 - 1 {
        height as i64 - 1
    } else {
        maxy_p
    };
    if maxx < minx || maxy < miny {
        return None;
    }
    proof {
        crate::fx::lemma_div_bound(minx_s as int, SUB as int, SCREEN_LIM as int);
        crate::fx::lemma_div_bound(miny_s as int, SUB as int, SCREEN_LIM as int);
    }
    let iz1 = inv_z(p1.z);
    let iz2 = inv_z(p2.z);
    let iz3 = inv_z(p3.z);
    Some(
        RasterTriangle {
            min_x: minx as u32,
            max_x: maxx as u32,
            min_y: miny as u32,
            max_y: maxy as u32,
            v1_2d: a,
            v2_2d: b,
            v3_2d: c,
            area,
            inv_z1: iz1,
            inv_z2: iz2,
            inv_z3: iz3,
            u1_over_z: attr_over_z(v1.texcoord.x, iz1),
            v1_over_z: attr_over_z(v1.texcoord.y, iz1),
            u2_over_z: attr_over_z(v2.texcoord.x, iz2),
            v2_over_z: attr_over_z(v2.texcoord.y, iz2),
            u3_over_z: attr_over_z(v3.texcoord.x, iz3),
            v3_over_z: attr_over_z(v3.texcoord.y, iz3),
            nx1_over_z: attr_over_z(v1.normal.x, iz1),
            ny1_over_z: attr_over_z(v1.normal.y, iz1),
            nz1_over_z: attr_over_z(v1.normal.z, iz1),
            nx2_over_z: attr_over_z(v2.normal.x, iz2),
            ny2_over_z: attr_over_z(v2.normal.y, iz2),
            nz2_over_z: attr_over_z(v2.normal.z, iz2),
            nx3_over_z: attr_over_z(v3.normal.x, iz3),
            ny3_over_z: attr_over_z(v3.normal.y, iz3),
            nz3_over_z: attr_over_z(v3.normal.z, iz3),
            model_index,
        },
    )
}

/// Projects a camera-space vertex position to screen space, keeping
/// camera-space z as the depth channel.
pub fn vertex_to_screen(v: Vec3, width: u32, height: u32, thf: i64) -> (r: Vec3)
    requires
        vec3_bounded(v, COORD_MAX as int),
        1 <= width <= DIM_MAX,
        1 <= height <= DIM_MAX,
        0 < thf <= NORMAL_MAX,
        v.z < 0,
    ensures
        r == screen_spec(v, width as int, height as int, thf as int),
        -SCREEN_LIM <= r.x <= SCREEN_LIM,
        -SCREEN_LIM <= r.y <= SCREEN_LIM,
        r.z == v.z,
{
    let x = project_comp(v.x, width, height, thf, v.z);
    let y = project_comp(-v.y, height, height, thf, v.z);
    Vec3 { x, y, z: v.z }
}

} // verus!

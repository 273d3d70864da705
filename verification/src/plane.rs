//! Half-space planes and the view frustum.
//!
//! A plane is a normal and an offset; the signed distance of a point is
//! `dot(normal, p) + d`, and `>= 0` means inside. The six frustum
//! planes are built from the vertical slope `tan(FOV/2)` (a fixed-point
//! input), the aspect ratio, and the near/far distances. Each side
//! normal is normalized to unit length at scale `ONE` (by the integer
//! square root, flooring each component), so all six planes measure
//! signed distance at the same scale.

use vstd::prelude::*;
use crate::fx::{div_floor_i128, div_floor_i64, isqrt_u64, mul_wide, sqrt_floor, COORD_MAX, NORMAL_MAX, ONE};
use crate::vectors::{Vec3, vec3_bounded};

verus! {

/// Clipping may nudge coordinates one unit outward per plane; this is
/// the loosest position bound any pipeline stage has to accept.
pub const CLIP_MAX: i64 = 0x4000_0010;

#[derive(Clone, Copy, PartialEq, Eq, Structural, Debug)]
pub struct Plane {
    pub normal: Vec3,
    pub d: i64,
}

/// A plane the clipper can work with: normal components within
/// `NORMAL_MAX`, offset within `COORD_MAX`.
pub open spec fn plane_wf(p: Plane) -> bool {
    vec3_bounded(p.normal, NORMAL_MAX as int) && -COORD_MAX <= p.d <= COORD_MAX
}

/// The exact linear form of the signed distance, before the fixed-point
/// rescale: `dot(normal, v)` at scale `ONE * ONE` plus `d * ONE`.
pub open spec fn lform(p: Plane, v: Vec3) -> int {
    p.normal.x * v.x + p.normal.y * v.y + p.normal.z * v.z + p.d * (ONE as int)
}

/// Fixed-point signed distance of a point from the plane; `>= 0` is
/// the inside half-space.
pub open spec fn dist_spec(p: Plane, v: Vec3) -> int {
    lform(p, v) / (ONE as int)
}

/// Magnitude of an integer.
pub open spec fn iabs(x: int) -> int {
    if x < 0 {
        -x
    } else {
        x
    }
}

/// The largest component magnitude of the plane's normal.
pub open spec fn norm_inf(p: Plane) -> int {
    vstd::math::max(iabs(p.normal.x as int), vstd::math::max(iabs(p.normal.y as int), iabs(p.normal.z as int)))
}

/// Bound on each addend of `lform`: the product of a normal component
/// and a clip-bounded coordinate stays below 2^53.
pub proof fn lemma_lform_bound(p: Plane, v: Vec3)
    requires
        plane_wf(p),
        vec3_bounded(v, CLIP_MAX as int),
    ensures
        -0x20_0000_0000_0000 <= p.normal.x * v.x <= 0x20_0000_0000_0000,
        -0x20_0000_0000_0000 <= p.normal.y * v.y <= 0x20_0000_0000_0000,
        -0x20_0000_0000_0000 <= p.normal.z * v.z <= 0x20_0000_0000_0000,
        -0x4000_0000_0000_0000 <= lform(p, v) <= 0x4000_0000_0000_0000,
{
    crate::fx::lemma_mul_bound2(p.normal.x as int, v.x as int, NORMAL_MAX as int, CLIP_MAX as int);
    crate::fx::lemma_mul_bound2(p.normal.y as int, v.y as int, NORMAL_MAX as int, CLIP_MAX as int);
    crate::fx::lemma_mul_bound2(p.normal.z as int, v.z as int, NORMAL_MAX as int, CLIP_MAX as int);
    crate::fx::lemma_mul_bound2(p.d as int, ONE as int, COORD_MAX as int, ONE as int);
}

impl Plane {
    /// The degenerate all-zero plane, whose half-space holds everything.
    pub fn new() -> (r: Plane)
        ensures
            r == (Plane { normal: Vec3 { x: 0, y: 0, z: 0 }, d: 0 }),
    {
        Plane { normal: Vec3 { x: 0, y: 0, z: 0 }, d: 0 }
    }

    /// Signed fixed-point distance of `v` from the plane.
    pub fn distance(&self, v: Vec3) -> (r: i64)
        requires
            plane_wf(*self),
            vec3_bounded(v, CLIP_MAX as int),
        ensures
            r == dist_spec(*self, v),
    {
        proof {
            lemma_lform_bound(*self, v);
            crate::fx::lemma_div_bound(lform(*self, v), ONE as int, 0x4000_0000_0000_0000);
        }
        let l = mul_wide(self.normal.x, v.x) + mul_wide(self.normal.y, v.y) + mul_wide(
            self.normal.z,
            v.z,
        ) + mul_wide(self.d, ONE);
        div_floor_i128(l, ONE as i128) as i64
    }
}

/// The length of a side-plane normal before normalization: the floor
/// square root of `ONE^2 + slope^2`.
pub open spec fn side_len(slope: int) -> int {
    sqrt_floor((ONE as int) * (ONE as int) + slope * slope)
}

/// One component of a normalized normal: the raw component scaled to
/// unit length at `ONE`, flooring.
pub open spec fn unit_comp(a: int, len: int) -> int {
    (a * (ONE as int)) / len
}

/// The six frustum planes, in clipping order, as a spec-level value.
/// `slope_y` is `tan(FOV/2)` in fixed point and `slope_x` its product
/// with the aspect ratio; the four side normals are the normalized
/// forms of `(-1, 0, -slope_x)`, `(1, 0, -slope_x)`,
/// `(0, -1, -slope_y)` and `(0, 1, -slope_y)`.
pub open spec fn frustum_spec(slope_x: int, slope_y: int, near: int, far: int) -> Seq<Plane> {
    let lx = side_len(slope_x);
    let ly = side_len(slope_y);
    seq![
        Plane { normal: Vec3 { x: 0, y: 0, z: (-ONE) as i64 }, d: (-near) as i64 },
        Plane { normal: Vec3 { x: 0, y: 0, z: ONE }, d: far as i64 },
        Plane {
            normal: Vec3 {
                x: unit_comp(-(ONE as int), lx) as i64,
                y: 0,
                z: unit_comp(-slope_x, lx) as i64,
            },
            d: 0,
        },
        Plane {
            normal: Vec3 {
                x: unit_comp(ONE as int, lx) as i64,
                y: 0,
                z: unit_comp(-slope_x, lx) as i64,
            },
            d: 0,
        },
        Plane {
            normal: Vec3 {
                x: 0,
                y: unit_comp(-(ONE as int), ly) as i64,
                z: unit_comp(-slope_y, ly) as i64,
            },
            d: 0,
        },
        Plane {
            normal: Vec3 {
                x: 0,
                y: unit_comp(ONE as int, ly) as i64,
                z: unit_comp(-slope_y, ly) as i64,
            },
            d: 0,
        },
    ]
}

/// The side length dominates both raw components and is itself at
/// least `ONE` and well below the coordinate range.
pub proof fn lemma_side_len_bounds(slope: int)
    requires
        0 <= slope <= NORMAL_MAX,
    ensures
        ONE <= side_len(slope) <= 0x80_0000,
        slope <= side_len(slope),
{
    let n = (ONE as int) * (ONE as int) + slope * slope;
    crate::fx::lemma_mul_bound_abs(slope, slope, NORMAL_MAX as int);
    crate::fx::lemma_sqrt_floor_props(n);
    let l = side_len(slope);
    assert(ONE <= l && slope <= l && l <= 0x80_0000) by (nonlinear_arith)
        requires
            0 <= l,
            l * l <= n,
            n < (l + 1) * (l + 1),
            n >= (ONE as int) * (ONE as int),
            n >= slope * slope,
            n <= (ONE as int) * (ONE as int) + (NORMAL_MAX as int) * (NORMAL_MAX as int),
            0 <= slope,
    ;
}

/// A component no larger than the length normalizes to within `ONE`.
pub proof fn lemma_unit_comp_bounds(a: int, len: int)
    requires
        1 <= len,
        -len <= a <= len,
    ensures
        -(ONE as int) <= unit_comp(a, len) <= ONE as int,
{
    crate::fx::lemma_mul_bound2(a, ONE as int, len, ONE as int);
    vstd::arithmetic::div_mod::lemma_div_multiples_vanish(ONE as int, len);
    vstd::arithmetic::div_mod::lemma_div_multiples_vanish(-(ONE as int), len);
    assert(len * (ONE as int) == (ONE as int) * len && len * (-(ONE as int)) == -((ONE as int)
        * len)) by (nonlinear_arith);
    vstd::arithmetic::div_mod::lemma_div_is_ordered(a * (ONE as int), len * (ONE as int), len);
    vstd::arithmetic::div_mod::lemma_div_is_ordered(-(len * (ONE as int)), a * (ONE as int), len);
}

/// Builds the six frustum planes from the vertical slope `tan(FOV/2)`,
/// the aspect ratio (both fixed point), and the near/far distances.
pub fn build_frustum_planes(slope_y: i64, aspect: i64, near: i64, far: i64) -> (r: [Plane; 6])
    requires
        0 < slope_y <= NORMAL_MAX,
        0 < aspect <= NORMAL_MAX,
        (slope_y * aspect) / (ONE as int) <= NORMAL_MAX,
        0 < near <= far <= COORD_MAX,
    ensures
        r@ == frustum_spec((slope_y * aspect) / (ONE as int), slope_y as int, near as int, far as int),
        forall|i: int| 0 <= i < 6 ==> plane_wf(#[trigger] r@[i]),
{
    proof {
        crate::fx::lemma_mul_bound_abs(slope_y as int, aspect as int, NORMAL_MAX as int);
        crate::fx::lemma_div_bound(
            slope_y * aspect,
            ONE as int,
            (NORMAL_MAX as int) * (NORMAL_MAX as int),
        );
        assert(slope_y * aspect >= 0) by (nonlinear_arith)
            requires
                slope_y > 0,
                aspect > 0,
        ;
        vstd::arithmetic::div_mod::lemma_div_pos_is_pos(slope_y * aspect, ONE as int);
    }
    let slope_x: i64 = div_floor_i128(mul_wide(slope_y, aspect), ONE as i128) as i64;
    proof {
        lemma_side_len_bounds(slope_x as int);
        lemma_side_len_bounds(slope_y as int);
        crate::fx::lemma_mul_bound_abs(slope_x as int, slope_x as int, NORMAL_MAX as int);
        crate::fx::lemma_mul_bound_abs(slope_y as int, slope_y as int, NORMAL_MAX as int);
    }
    let lx: i64 = isqrt_u64((ONE as u64) * (ONE as u64) + (slope_x as u64) * (slope_x as u64))
        as i64;
    let ly: i64 = isqrt_u64((ONE as u64) * (ONE as u64) + (slope_y as u64) * (slope_y as u64))
        as i64;
    proof {
        assert(lx == side_len(slope_x as int) && ly == side_len(slope_y as int));
        lemma_unit_comp_bounds(-(ONE as int), lx as int);
        lemma_unit_comp_bounds(ONE as int, lx as int);
        lemma_unit_comp_bounds(-(slope_x as int), lx as int);
        lemma_unit_comp_bounds(-(ONE as int), ly as int);
        lemma_unit_comp_bounds(ONE as int, ly as int);
        lemma_unit_comp_bounds(-(slope_y as int), ly as int);
    }
    let x_neg: i64 = div_floor_i64(-ONE * ONE, lx);
    let x_pos: i64 = div_floor_i64(ONE * ONE, lx);
    let xz: i64 = div_floor_i64(-slope_x * ONE, lx);
    let y_neg: i64 = div_floor_i64(-ONE * ONE, ly);
    let y_pos: i64 = div_floor_i64(ONE * ONE, ly);
    let yz: i64 = div_floor_i64(-slope_y * ONE, ly);
    let planes: [Plane; 6] = [
        Plane { normal: Vec3 { x: 0, y: 0, z: -ONE }, d: -near },
        Plane { normal: Vec3 { x: 0, y: 0, z: ONE }, d: far },
        Plane { normal: Vec3 { x: x_neg, y: 0, z: xz }, d: 0 },
        Plane { normal: Vec3 { x: x_pos, y: 0, z: xz }, d: 0 },
        Plane { normal: Vec3 { x: 0, y: y_neg, z: yz }, d: 0 },
        Plane { normal: Vec3 { x: 0, y: y_pos, z: yz }, d: 0 },
    ];
    proof {
        assert(planes@ =~= frustum_spec(
            (slope_y * aspect) / (ONE as int),
            slope_y as int,
            near as int,
            far as int,
        ));
    }
    planes
}


/// Every frustum plane is well-formed and has a unit-scale normal:
/// the near and far normals are exactly `ONE` long, and the side
/// normals are normalized to at most `ONE` per component.
pub proof fn lemma_frustum_planes_unit(slope_x: int, slope_y: int, near: int, far: int)
    requires
        0 <= slope_x <= NORMAL_MAX,
        0 <= slope_y <= NORMAL_MAX,
        0 < near <= far <= COORD_MAX,
    ensures
        forall|k: int|
            0 <= k < 6 ==> plane_wf(#[trigger] frustum_spec(slope_x, slope_y, near, far)[k])
                && norm_inf(frustum_spec(slope_x, slope_y, near, far)[k]) <= ONE as int,
{
    let fr = frustum_spec(slope_x, slope_y, near, far);
    lemma_side_len_bounds(slope_x);
    lemma_side_len_bounds(slope_y);
    let lx = side_len(slope_x);
    let ly = side_len(slope_y);
    lemma_unit_comp_bounds(-(ONE as int), lx);
    lemma_unit_comp_bounds(ONE as int, lx);
    lemma_unit_comp_bounds(-slope_x, lx);
    lemma_unit_comp_bounds(-(ONE as int), ly);
    lemma_unit_comp_bounds(ONE as int, ly);
    lemma_unit_comp_bounds(-slope_y, ly);
    assert forall|k: int| 0 <= k < 6 implies plane_wf(#[trigger] fr[k]) && norm_inf(fr[k])
        <= ONE as int by {
        if k == 0 {
            assert(norm_inf(fr[0]) == ONE as int);
        } else if k == 1 {
            assert(norm_inf(fr[1]) == ONE as int);
        }
    }
}

} // verus!

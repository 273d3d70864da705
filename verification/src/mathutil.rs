//! Small 2D helpers: dot product, perpendicular, and the
//! point-in-triangle test.

use vstd::prelude::*;
use crate::fx::{mul_wide, ONE};
use crate::vectors::{vec2_bounded, Vec2, VEC_MAX};

verus! {

/// The fixed-point dot product of two 2D vectors.
pub fn dot(a: Vec2, b: Vec2) -> (r: i64)
    requires
        vec2_bounded(a, VEC_MAX as int),
        vec2_bounded(b, VEC_MAX as int),
    ensures
        r == (a.x * b.x + a.y * b.y) / (ONE as int),
{
    a.dot(b)
}

/// The clockwise perpendicular of a 2D vector.
pub fn perpendicular(vector: Vec2) -> (r: Vec2)
    requires
        vec2_bounded(vector, VEC_MAX as int),
    ensures
        r.x == vector.y,
        r.y == -vector.x,
{
    Vec2 { x: vector.y, y: -vector.x }
}

/// The z component of the cross product of two 2D vectors: positive
/// when `pb` lies to the left of `pa`.
pub open spec fn cross_z_spec(pa: Vec2, pb: Vec2) -> int {
    pa.x * pb.y - pa.y * pb.x
}

fn cross_product_z(pa: Vec2, pb: Vec2) -> (r: i64)
    requires
        vec2_bounded(pa, 0x4000_0000),
        vec2_bounded(pb, 0x4000_0000),
    ensures
        r == cross_z_spec(pa, pb),
{
    proof {
        crate::fx::lemma_mul_bound_abs(pa.x as int, pb.y as int, 0x4000_0000);
        crate::fx::lemma_mul_bound_abs(pa.y as int, pb.x as int, 0x4000_0000);
    }
    (mul_wide(pa.x, pb.y) - mul_wide(pa.y, pb.x)) as i64
}

/// Whether `p` lies inside (or on the edge of) the triangle `a b c`:
/// the three edge cross products all share a sign, whichever winding
/// order the triangle uses.
pub open spec fn point_in_tri_spec(a: Vec2, b: Vec2, c: Vec2, p: Vec2) -> bool {
    let cross1 = cross_z_spec(
        Vec2 { x: (b.x - a.x) as i64, y: (b.y - a.y) as i64 },
        Vec2 { x: (p.x - a.x) as i64, y: (p.y - a.y) as i64 },
    );
    let cross2 = cross_z_spec(
        Vec2 { x: (c.x - b.x) as i64, y: (c.y - b.y) as i64 },
        Vec2 { x: (p.x - b.x) as i64, y: (p.y - b.y) as i64 },
    );
    let cross3 = cross_z_spec(
        Vec2 { x: (a.x - c.x) as i64, y: (a.y - c.y) as i64 },
        Vec2 { x: (p.x - c.x) as i64, y: (p.y - c.y) as i64 },
    );
    (cross1 >= 0 && cross2 >= 0 && cross3 >= 0) || (cross1 <= 0 && cross2 <= 0 && cross3 <= 0)
}

/// Tests whether a point lies inside a triangle, handling both
/// winding orders.
pub fn point_in_tri(a: Vec2, b: Vec2, c: Vec2, p: Vec2) -> (r: bool)
    requires
        vec2_bounded(a, 0x2000_0000),
        vec2_bounded(b, 0x2000_0000),
        vec2_bounded(c, 0x2000_0000),
        vec2_bounded(p, 0x2000_0000),
    ensures
        r == point_in_tri_spec(a, b, c, p),
{
    let ab = b.sub(a);
    let bc = c.sub(b);
    let ca = a.sub(c);
    let ap = p.sub(a);
    let bp = p.sub(b);
    let cp = p.sub(c);
    let cross1 = cross_product_z(ab, ap);
    let cross2 = cross_product_z(bc, bp);
    let cross3 = cross_product_z(ca, cp);
    let all_left = cross1 >= 0 && cross2 >= 0 && cross3 >= 0;
    let all_right = cross1 <= 0 && cross2 <= 0 && cross3 <= 0;
    all_left || all_right
}

} // verus!

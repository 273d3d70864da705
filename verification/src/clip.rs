//! Sutherland-Hodgman polygon clipping against one half-space plane.
//!
//! The polygon is an ordered vertex loop. Walking consecutive vertex
//! pairs (wrapping last to first), each vertex inside the plane is
//! kept, and each edge that crosses the plane contributes the
//! interpolated crossing point. The interpolation parameter is
//! `t = prevDist / (prevDist - currDist)`; to round only once, each
//! component folds the multiplication by `t` and the division into a
//! single floored quotient.

use vstd::prelude::*;
use crate::fx::{div_floor_i128, mul_wide, COORD_MAX, ONE};
use crate::plane::{dist_spec, lemma_lform_bound, plane_wf, Plane};
use crate::vectors::{Vec2, Vec3};
use crate::vertex::{vertex_bounded, Vertex};

verus! {

/// Largest magnitude a signed plane distance can take on well-formed
/// inputs (2^46).
pub const DIST_MAX: i64 = 0x4000_0000_0000;

/// Every vertex of the polygon bounded by `m`.
pub open spec fn poly_bounded(s: Seq<Vertex>, m: int) -> bool {
    forall|i: int| 0 <= i < s.len() ==> vertex_bounded(#[trigger] s[i], m)
}

/// One interpolated component of a crossing point: starting at `a`,
/// moving the fraction `dp / (dp - dc)` of the way toward `b`, floored
/// once. The two branches are the same rational value, written with a
/// positive denominator.
pub open spec fn isect_comp(a: int, b: int, dp: int, dc: int) -> int {
    if dp - dc > 0 {
        a + ((b - a) * dp) / (dp - dc)
    } else {
        a + ((a - b) * dp) / (dc - dp)
    }
}

/// The crossing vertex of the edge `prev -> curr`, all eight attribute
/// components interpolated with the same parameter.
pub open spec fn isect_vertex(p: Vertex, c: Vertex, dp: int, dc: int) -> Vertex {
    Vertex {
        position: Vec3 {
            x: isect_comp(p.position.x as int, c.position.x as int, dp, dc) as i64,
            y: isect_comp(p.position.y as int, c.position.y as int, dp, dc) as i64,
            z: isect_comp(p.position.z as int, c.position.z as int, dp, dc) as i64,
        },
        texcoord: Vec2 {
            x: isect_comp(p.texcoord.x as int, c.texcoord.x as int, dp, dc) as i64,
            y: isect_comp(p.texcoord.y as int, c.texcoord.y as int, dp, dc) as i64,
        },
        normal: Vec3 {
            x: isect_comp(p.normal.x as int, c.normal.x as int, dp, dc) as i64,
            y: isect_comp(p.normal.y as int, c.normal.y as int, dp, dc) as i64,
            z: isect_comp(p.normal.z as int, c.normal.z as int, dp, dc) as i64,
        },
    }
}

/// What one edge of the loop contributes to the clipped polygon: the
/// crossing point if the edge straddles the plane, then the current
/// vertex if it is inside.
pub open spec fn clip_step(pl: Plane, prev: Vertex, curr: Vertex) -> Seq<Vertex> {
    let dp = dist_spec(pl, prev.position);
    let dc = dist_spec(pl, curr.position);
    let crossing: Seq<Vertex> = if (dp >= 0) != (dc >= 0) {
        seq![isect_vertex(prev, curr, dp, dc)]
    } else {
        Seq::empty()
    };
    if dc >= 0 {
        crossing.push(curr)
    } else {
        crossing
    }
}

/// The vertex that precedes index `i` in the loop (wrapping).
pub open spec fn prev_of(input: Seq<Vertex>, i: int) -> Vertex {
    if i == 0 {
        input[input.len() - 1]
    } else {
        input[i - 1]
    }
}

/// The clipped polygon contributed by the first `k` edges.
pub open spec fn clip_prefix(pl: Plane, input: Seq<Vertex>, k: int) -> Seq<Vertex>
    decreases k,
{
    if k <= 0 {
        Seq::empty()
    } else {
        clip_prefix(pl, input, k - 1) + clip_step(pl, prev_of(input, k - 1), input[k - 1])
    }
}

/// The whole polygon clipped against one plane.
pub open spec fn clip_poly(pl: Plane, input: Seq<Vertex>) -> Seq<Vertex> {
    clip_prefix(pl, input, input.len() as int)
}

/// Signed distances of well-formed planes and bounded points stay
/// within `DIST_MAX`.
pub proof fn lemma_dist_bound(pl: Plane, v: Vec3)
    requires
        plane_wf(pl),
        crate::vectors::vec3_bounded(v, crate::plane::CLIP_MAX as int),
    ensures
        -DIST_MAX <= dist_spec(pl, v) <= DIST_MAX,
{
    lemma_lform_bound(pl, v);
    crate::fx::lemma_div_bound(crate::plane::lform(pl, v), ONE as int, DIST_MAX as int * (
    ONE as int));
    assert(DIST_MAX as int * (ONE as int) / (ONE as int) == DIST_MAX as int) by (nonlinear_arith);
    vstd::arithmetic::div_mod::lemma_div_is_ordered(
        crate::plane::lform(pl, v),
        DIST_MAX as int * (ONE as int),
        ONE as int,
    );
    vstd::arithmetic::div_mod::lemma_div_is_ordered(
        -(DIST_MAX as int * (ONE as int)),
        crate::plane::lform(pl, v),
        ONE as int,
    );
    assert(-(DIST_MAX as int * (ONE as int)) / (ONE as int) == -(DIST_MAX as int))
        by (nonlinear_arith);
}

/// The interpolated component lies between its two endpoints.
pub proof fn lemma_isect_comp_range(a: int, b: int, dp: int, dc: int)
    requires
        (dp >= 0) != (dc >= 0),
    ensures
        a <= b ==> a <= isect_comp(a, b, dp, dc) <= b,
        b < a ==> b <= isect_comp(a, b, dp, dc) <= a,
{
    if dp >= 0 {
        let den = dp - dc;
        assert(den > dp >= 0);
        let n = (b - a) * dp;
        if b >= a {
            assert(0 <= n <= (b - a) * den) by (nonlinear_arith)
                requires
                    0 <= dp < den,
                    b >= a,
                    n == (b - a) * dp,
            ;
            assert(((b - a) * den) / den == b - a) by (nonlinear_arith)
                requires
                    den > 0,
            ;
            vstd::arithmetic::div_mod::lemma_div_is_ordered(0, n, den);
            vstd::arithmetic::div_mod::lemma_div_is_ordered(n, (b - a) * den, den);
        } else {
            assert((b - a) * den <= n <= 0) by (nonlinear_arith)
                requires
                    0 <= dp < den,
                    b < a,
                    n == (b - a) * dp,
            ;
            assert(((b - a) * den) / den == b - a) by (nonlinear_arith)
                requires
                    den > 0,
            ;
            vstd::arithmetic::div_mod::lemma_div_is_ordered(n, 0, den);
            vstd::arithmetic::div_mod::lemma_div_is_ordered((b - a) * den, n, den);
        }
    } else {
        let den = dc - dp;
        let e = -dp;
        assert(den >= e > 0);
        let n = (a - b) * dp;
        assert(n == (b - a) * e) by (nonlinear_arith)
            requires
                e == -dp,
                n == (a - b) * dp,
        ;
        if b >= a {
            assert(0 <= n <= (b - a) * den) by (nonlinear_arith)
                requires
                    0 < e <= den,
                    n == (b - a) * e,
                    b >= a,
            ;
            assert(((b - a) * den) / den == b - a) by (nonlinear_arith)
                requires
                    den > 0,
            ;
            vstd::arithmetic::div_mod::lemma_div_is_ordered(0, n, den);
            vstd::arithmetic::div_mod::lemma_div_is_ordered(n, (b - a) * den, den);
        } else {
            assert((b - a) * den <= n <= 0) by (nonlinear_arith)
                requires
                    0 < e <= den,
                    n == (b - a) * e,
                    b < a,
            ;
            assert(((b - a) * den) / den == b - a) by (nonlinear_arith)
                requires
                    den > 0,
            ;
            vstd::arithmetic::div_mod::lemma_div_is_ordered(n, 0, den);
            vstd::arithmetic::div_mod::lemma_div_is_ordered((b - a) * den, n, den);
        }
    }
}

/// One interpolated component, computed with a single wide product and
/// a single floored division.
fn isect_comp_exec(a: i64, b: i64, dp: i64, dc: i64) -> (r: i64)
    requires
        (dp >= 0) != (dc >= 0),
        -COORD_MAX <= a <= COORD_MAX,
        -COORD_MAX <= b <= COORD_MAX,
        -DIST_MAX <= dp <= DIST_MAX,
        -DIST_MAX <= dc <= DIST_MAX,
    ensures
        r == isect_comp(a as int, b as int, dp as int, dc as int),
        a <= b ==> a <= r <= b,
        b < a ==> b <= r <= a,
{
    proof {
        lemma_isect_comp_range(a as int, b as int, dp as int, dc as int);
        crate::fx::lemma_mul_bound2(
            b as int - a as int,
            dp as int,
            2 * (COORD_MAX as int),
            DIST_MAX as int,
        );
        crate::fx::lemma_mul_bound2(
            a as int - b as int,
            dp as int,
            2 * (COORD_MAX as int),
            DIST_MAX as int,
        );
    }
    if dp >= 0 {
        let den: i64 = dp - dc;
        let num: i128 = mul_wide(b - a, dp);
        a + div_floor_i128(num, den as i128) as i64
    } else {
        let den: i64 = dc - dp;
        let num: i128 = mul_wide(a - b, dp);
        a + div_floor_i128(num, den as i128) as i64
    }
}

/// The crossing vertex of the edge `prev -> curr`.
fn intersect_vertex(prev: &Vertex, curr: &Vertex, dp: i64, dc: i64) -> (r: Vertex)
    requires
        (dp >= 0) != (dc >= 0),
        vertex_bounded(*prev, COORD_MAX as int),
        vertex_bounded(*curr, COORD_MAX as int),
        -DIST_MAX <= dp <= DIST_MAX,
        -DIST_MAX <= dc <= DIST_MAX,
    ensures
        r == isect_vertex(*prev, *curr, dp as int, dc as int),
        vertex_bounded(r, COORD_MAX as int),
{
    Vertex {
        position: Vec3 {
            x: isect_comp_exec(prev.position.x, curr.position.x, dp, dc),
            y: isect_comp_exec(prev.position.y, curr.position.y, dp, dc),
            z: isect_comp_exec(prev.position.z, curr.position.z, dp, dc),
        },
        texcoord: Vec2 {
            x: isect_comp_exec(prev.texcoord.x, curr.texcoord.x, dp, dc),
            y: isect_comp_exec(prev.texcoord.y, curr.texcoord.y, dp, dc),
        },
        normal: Vec3 {
            x: isect_comp_exec(prev.normal.x, curr.normal.x, dp, dc),
            y: isect_comp_exec(prev.normal.y, curr.normal.y, dp, dc),
            z: isect_comp_exec(prev.normal.z, curr.normal.z, dp, dc),
        },
    }
}

/// Clips the vertex loop `input_poly` against one plane, replacing the
/// contents of `output_poly` with the clipped polygon.
pub fn clip_polygon_against_plane(
    input_poly: &Vec<Vertex>,
    output_poly: &mut Vec<Vertex>,
    plane: &Plane,
)
    requires
        plane_wf(*plane),
        poly_bounded(input_poly@, COORD_MAX as int),
    ensures
        final(output_poly)@ == clip_poly(*plane, input_poly@),
        poly_bounded(final(output_poly)@, COORD_MAX as int),
{
    output_poly.clear();
    if input_poly.len() == 0 {
        return ;
    }
    let n: usize = input_poly.len();
    let mut prev_v: Vertex = input_poly[n - 1];
    let mut prev_dist: i64 = plane.distance(prev_v.position);
    proof {
        lemma_dist_bound(*plane, prev_v.position);
    }
    let mut i: usize = 0;
    while i < n
        invariant
            n == input_poly.len(),
            0 <= i <= n,
            plane_wf(*plane),
            poly_bounded(input_poly@, COORD_MAX as int),
            prev_v == prev_of(input_poly@, i as int),
            prev_dist == dist_spec(*plane, prev_v.position),
            output_poly@ == clip_prefix(*plane, input_poly@, i as int),
            poly_bounded(output_poly@, COORD_MAX as int),
        decreases n - i,
    {
        let curr_v: Vertex = input_poly[i];
        let curr_dist: i64 = plane.distance(curr_v.position);
        proof {
            lemma_dist_bound(*plane, curr_v.position);
            lemma_dist_bound(*plane, prev_v.position);
        }
        let prev_inside: bool = prev_dist >= 0;
        let curr_inside: bool = curr_dist >= 0;
        let ghost out_before = output_poly@;
        if prev_inside != curr_inside {
            let crossing: Vertex = intersect_vertex(&prev_v, &curr_v, prev_dist, curr_dist);
            output_poly.push(crossing);
        }
        if curr_inside {
            output_poly.push(curr_v);
        }
        proof {
            assert(output_poly@ == out_before + clip_step(*plane, prev_v, curr_v));
            assert(output_poly@ == clip_prefix(*plane, input_poly@, i + 1));
        }
        prev_v = curr_v;
        prev_dist = curr_dist;
        i = i + 1;
    }
}

} // verus!

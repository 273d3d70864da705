//! Properties of the polygon clipper.
//!
//! Of `clip_poly` it is proved that: a polygon entirely inside the
//! plane is returned unchanged; a polygon entirely outside is clipped
//! to nothing; every vertex of a clipped polygon lies on the inner
//! side of the plane up to a small fixed-point tolerance; clipping
//! keeps vertices inside the coordinate bound; and one clip moves any
//! vertex's signed distance to any other plane by at most `erode_eps`
//! in either direction, which is what lets the frustum chain state
//! cumulative bounds over all six planes.

use vstd::prelude::*;
use crate::clip::{clip_poly, clip_prefix, clip_step, isect_comp, isect_vertex, poly_bounded, prev_of};
use crate::fx::{COORD_MAX, ONE};
use crate::plane::{dist_spec, lform, norm_inf, plane_wf, Plane};
use crate::vertex::{vertex_bounded, Vertex};

verus! {

/// Clipping tolerance: how far (in fixed-point distance units) a
/// vertex produced by clipping can lie outside the plane. One rounding
/// step per position component, weighted by the normal, plus the final
/// rescale.
pub open spec fn clip_eps(pl: Plane) -> int {
    (3 * norm_inf(pl)) / (ONE as int) + 1
}

/// A polygon that lies entirely on the inner side of the plane.
pub open spec fn all_inside(pl: Plane, s: Seq<Vertex>) -> bool {
    forall|i: int| 0 <= i < s.len() ==> dist_spec(pl, #[trigger] s[i].position) >= 0
}

/// A polygon that lies entirely on the outer side of the plane.
pub open spec fn all_outside(pl: Plane, s: Seq<Vertex>) -> bool {
    forall|i: int| 0 <= i < s.len() ==> dist_spec(pl, #[trigger] s[i].position) < 0
}

proof fn lemma_clip_prefix_inside(pl: Plane, input: Seq<Vertex>, k: int)
    requires
        all_inside(pl, input),
        0 <= k <= input.len(),
    ensures
        clip_prefix(pl, input, k) == input.take(k),
    decreases k,
{
    if k <= 0 {
        assert(clip_prefix(pl, input, k) =~= input.take(k));
    } else {
        lemma_clip_prefix_inside(pl, input, k - 1);
        let prev = prev_of(input, k - 1);
        let curr = input[k - 1];
        assert(dist_spec(pl, prev.position) >= 0);
        assert(dist_spec(pl, curr.position) >= 0);
        assert(clip_step(pl, prev, curr) =~= seq![curr]);
        assert(clip_prefix(pl, input, k) =~= input.take(k));
    }
}

/// A polygon entirely inside the plane clips to itself: no vertex is
/// dropped and no vertex is introduced.
pub proof fn lemma_clip_inside(pl: Plane, input: Seq<Vertex>)
    requires
        all_inside(pl, input),
    ensures
        clip_poly(pl, input) == input,
{
    lemma_clip_prefix_inside(pl, input, input.len() as int);
    assert(input.take(input.len() as int) =~= input);
}

proof fn lemma_clip_prefix_outside(pl: Plane, input: Seq<Vertex>, k: int)
    requires
        all_outside(pl, input),
        0 <= k <= input.len(),
    ensures
        clip_prefix(pl, input, k) == Seq::<Vertex>::empty(),
    decreases k,
{
    if k <= 0 {
        assert(clip_prefix(pl, input, k) =~= Seq::<Vertex>::empty());
    } else {
        lemma_clip_prefix_outside(pl, input, k - 1);
        let prev = prev_of(input, k - 1);
        let curr = input[k - 1];
        assert(dist_spec(pl, prev.position) < 0);
        assert(dist_spec(pl, curr.position) < 0);
        assert(clip_step(pl, prev, curr) =~= Seq::<Vertex>::empty());
        assert(clip_prefix(pl, input, k) =~= Seq::<Vertex>::empty());
    }
}

/// A polygon entirely outside the plane clips to the empty polygon.
pub proof fn lemma_clip_outside(pl: Plane, input: Seq<Vertex>)
    requires
        all_outside(pl, input),
    ensures
        clip_poly(pl, input) == Seq::<Vertex>::empty(),
{
    lemma_clip_prefix_outside(pl, input, input.len() as int);
}

/// Each normal component is bounded by the normal's largest magnitude.
proof fn lemma_norm_inf_bounds(pl: Plane)
    ensures
        norm_inf(pl) >= 0,
        -norm_inf(pl) <= pl.normal.x <= norm_inf(pl),
        -norm_inf(pl) <= pl.normal.y <= norm_inf(pl),
        -norm_inf(pl) <= pl.normal.z <= norm_inf(pl),
{
}

/// The numeric core of the boundary property: the crossing vertex the
/// clipper interpolates lies at signed distance at least `-clip_eps`
/// from the plane.
proof fn lemma_isect_dist(pl: Plane, p: Vertex, c: Vertex)
    requires
        plane_wf(pl),
        vertex_bounded(p, COORD_MAX as int),
        vertex_bounded(c, COORD_MAX as int),
        (dist_spec(pl, p.position) >= 0) != (dist_spec(pl, c.position) >= 0),
    ensures
        dist_spec(
            pl,
            isect_vertex(p, c, dist_spec(pl, p.position), dist_spec(pl, c.position)).position,
        ) >= -clip_eps(pl),
{
    let oo = ONE as int;
    let dp = dist_spec(pl, p.position);
    let dc = dist_spec(pl, c.position);
    let lp = lform(pl, p.position);
    let lc = lform(pl, c.position);
    let nx = pl.normal.x as int;
    let ny = pl.normal.y as int;
    let nz = pl.normal.z as int;
    let dd = pl.d as int;
    let px = p.position.x as int;
    let py = p.position.y as int;
    let pz = p.position.z as int;
    let cx = c.position.x as int;
    let cy = c.position.y as int;
    let cz = c.position.z as int;
    let nm = norm_inf(pl);
    lemma_norm_inf_bounds(pl);

    vstd::arithmetic::div_mod::lemma_fundamental_div_mod(lp, oo);
    vstd::arithmetic::div_mod::lemma_fundamental_div_mod(lc, oo);
    let rp = lp % oo;
    let rc = lc % oo;
    assert(0 <= rp < oo && 0 <= rc < oo) by (nonlinear_arith)
        requires
            oo > 0,
            rp == lp % oo,
            rc == lc % oo,
    ;

    let v = isect_vertex(p, c, dp, dc);
    crate::clip::lemma_isect_comp_range(px, cx, dp, dc);
    crate::clip::lemma_isect_comp_range(py, cy, dp, dc);
    crate::clip::lemma_isect_comp_range(pz, cz, dp, dc);
    let vx = isect_comp(px, cx, dp, dc);
    let vy = isect_comp(py, cy, dp, dc);
    let vz = isect_comp(pz, cz, dp, dc);
    assert(v.position.x == vx && v.position.y == vy && v.position.z == vz);
    let lv = lform(pl, v.position);
    assert(lv == nx * vx + ny * vy + nz * vz + dd * oo);

    let den = if dp >= 0 {
        dp - dc
    } else {
        dc - dp
    };
    assert(den > 0);
    // The numerators of the single-rounding interpolation.
    let f = if dp >= 0 {
        dp
    } else {
        -dp
    };
    assert(0 <= f <= den);
    let gx = (cx - px) * f;
    let gy = (cy - py) * f;
    let gz = (cz - pz) * f;
    let wx = vx - px;
    let wy = vy - py;
    let wz = vz - pz;
    if dp >= 0 {
        assert(wx == gx / den && wy == gy / den && wz == gz / den);
    } else {
        assert((px - cx) * dp == gx) by (nonlinear_arith)
            requires
                f == -dp,
                gx == (cx - px) * f,
        ;
        assert((py - cy) * dp == gy) by (nonlinear_arith)
            requires
                f == -dp,
                gy == (cy - py) * f,
        ;
        assert((pz - cz) * dp == gz) by (nonlinear_arith)
            requires
                f == -dp,
                gz == (cz - pz) * f,
        ;
        assert(wx == gx / den && wy == gy / den && wz == gz / den);
    }
    vstd::arithmetic::div_mod::lemma_fundamental_div_mod(gx, den);
    vstd::arithmetic::div_mod::lemma_fundamental_div_mod(gy, den);
    vstd::arithmetic::div_mod::lemma_fundamental_div_mod(gz, den);
    let rx = gx % den;
    let ry = gy % den;
    let rz = gz % den;
    assert(0 <= rx < den && 0 <= ry < den && 0 <= rz < den) by (nonlinear_arith)
        requires
            den > 0,
            rx == gx % den,
            ry == gy % den,
            rz == gz % den,
    ;
    let rr = nx * rx + ny * ry + nz * rz;

    // Assemble the identity `den * lv == den * lp + f * (lc - lp) - rr`
    // in small steps, then substitute the two distance remainders.
    let ww = nx * wx + ny * wy + nz * wz;
    assert(lv == lp + ww) by (nonlinear_arith)
        requires
            lv == nx * (px + wx) + ny * (py + wy) + nz * (pz + wz) + dd * oo,
            lp == nx * px + ny * py + nz * pz + dd * oo,
            ww == nx * wx + ny * wy + nz * wz,
    ;
    assert(den * (nx * wx) == nx * gx - nx * rx) by (nonlinear_arith)
        requires
            gx == den * wx + rx,
    ;
    assert(den * (ny * wy) == ny * gy - ny * ry) by (nonlinear_arith)
        requires
            gy == den * wy + ry,
    ;
    assert(den * (nz * wz) == nz * gz - nz * rz) by (nonlinear_arith)
        requires
            gz == den * wz + rz,
    ;
    let sx = cx - px;
    let sy = cy - py;
    let sz = cz - pz;
    assert(lc - lp == nx * sx + ny * sy + nz * sz) by (nonlinear_arith)
        requires
            lp == nx * px + ny * py + nz * pz + dd * oo,
            lc == nx * cx + ny * cy + nz * cz + dd * oo,
            sx == cx - px,
            sy == cy - py,
            sz == cz - pz,
    ;
    let ax = nx * sx;
    let ay = ny * sy;
    let az = nz * sz;
    assert(nx * gx == f * ax) by (nonlinear_arith)
        requires
            gx == sx * f,
            ax == nx * sx,
    ;
    assert(ny * gy == f * ay) by (nonlinear_arith)
        requires
            gy == sy * f,
            ay == ny * sy,
    ;
    assert(nz * gz == f * az) by (nonlinear_arith)
        requires
            gz == sz * f,
            az == nz * sz,
    ;
    assert(f * (ax + ay + az) == f * ax + f * ay + f * az) by (nonlinear_arith);
    assert(nx * gx + ny * gy + nz * gz == f * (nx * sx + ny * sy + nz * sz));
    assert(f * (lc - lp) == f * (nx * sx + ny * sy + nz * sz)) by (nonlinear_arith)
        requires
            lc - lp == nx * sx + ny * sy + nz * sz,
    ;
    assert(nx * gx + ny * gy + nz * gz == f * (lc - lp));
    assert(den * lv == den * lp + f * (lc - lp) - rr) by (nonlinear_arith)
        requires
            lv == lp + ww,
            ww == nx * wx + ny * wy + nz * wz,
            den * (nx * wx) == nx * gx - nx * rx,
            den * (ny * wy) == ny * gy - ny * ry,
            den * (nz * wz) == nz * gz - nz * rz,
            nx * gx + ny * gy + nz * gz == f * (lc - lp),
            rr == nx * rx + ny * ry + nz * rz,
    ;
    if dp >= 0 {
        assert(den * lp + f * (lc - lp) == dp * rc + (-dc) * rp) by (nonlinear_arith)
            requires
                den == dp - dc,
                f == dp,
                lp == oo * dp + rp,
                lc == oo * dc + rc,
        ;
        assert(dp * rc >= 0 && (-dc) * rp >= 0) by (nonlinear_arith)
            requires
                dp >= 0,
                dc < 0,
                rc >= 0,
                rp >= 0,
        ;
        assert(den * lv == dp * rc + (-dc) * rp - rr);
    } else {
        assert(den * lp + f * (lc - lp) == f * rc + dc * rp) by (nonlinear_arith)
            requires
                den == dc - dp,
                f == -dp,
                lp == oo * dp + rp,
                lc == oo * dc + rc,
        ;
        assert(f * rc >= 0 && dc * rp >= 0) by (nonlinear_arith)
            requires
                f > 0,
                dc >= 0,
                rc >= 0,
                rp >= 0,
        ;
        assert(den * lv == f * rc + dc * rp - rr);
    }
    crate::fx::lemma_mul_bound2(nx, rx, nm, den);
    crate::fx::lemma_mul_bound2(ny, ry, nm, den);
    crate::fx::lemma_mul_bound2(nz, rz, nm, den);
    assert(rr <= 3 * (nm * den));
    assert(den * lv >= -(3 * (nm * den)));
    assert(lv >= -(3 * nm)) by (nonlinear_arith)
        requires
            den > 0,
            den * lv >= -(3 * (nm * den)),
    ;
    vstd::arithmetic::div_mod::lemma_div_is_ordered(-(3 * nm), lv, oo);
    assert((-(3 * nm)) / oo >= -((3 * nm) / oo) - 1) by (nonlinear_arith)
        requires
            oo > 0,
            nm >= 0,
    ;
}

proof fn lemma_clip_prefix_boundary(pl: Plane, input: Seq<Vertex>, k: int)
    requires
        plane_wf(pl),
        poly_bounded(input, COORD_MAX as int),
        0 <= k <= input.len(),
    ensures
        forall|j: int|
            0 <= j < clip_prefix(pl, input, k).len() ==> dist_spec(
                pl,
                #[trigger] clip_prefix(pl, input, k)[j].position,
            ) >= -clip_eps(pl),
    decreases k,
{
    vstd::arithmetic::div_mod::lemma_div_pos_is_pos(3 * norm_inf(pl), ONE as int);
    lemma_norm_inf_bounds(pl);
    if k <= 0 {
    } else {
        lemma_clip_prefix_boundary(pl, input, k - 1);
        let prev = prev_of(input, k - 1);
        let curr = input[k - 1];
        assert(vertex_bounded(prev, COORD_MAX as int));
        assert(vertex_bounded(curr, COORD_MAX as int));
        let dp = dist_spec(pl, prev.position);
        let dc = dist_spec(pl, curr.position);
        if (dp >= 0) != (dc >= 0) {
            lemma_isect_dist(pl, prev, curr);
        }
        assert forall|j: int| 0 <= j < clip_prefix(pl, input, k).len() implies dist_spec(
            pl,
            #[trigger] clip_prefix(pl, input, k)[j].position,
        ) >= -clip_eps(pl) by {
            let base = clip_prefix(pl, input, k - 1);
            if j < base.len() {
                assert(clip_prefix(pl, input, k)[j] == base[j]);
            } else {
                let step = clip_step(pl, prev, curr);
                assert(clip_prefix(pl, input, k)[j] == step[j - base.len()]);
            }
        }
    }
}

proof fn lemma_clip_prefix_z(pl: Plane, input: Seq<Vertex>, zm: int, k: int)
    requires
        forall|i: int| 0 <= i < input.len() ==> (#[trigger] input[i]).position.z <= zm,
        0 <= k <= input.len(),
    ensures
        forall|j: int|
            0 <= j < clip_prefix(pl, input, k).len() ==> (#[trigger] clip_prefix(pl, input, k)[j]).position.z
                <= zm,
    decreases k,
{
    if k <= 0 {
    } else {
        lemma_clip_prefix_z(pl, input, zm, k - 1);
        let prev = prev_of(input, k - 1);
        let curr = input[k - 1];
        let dp = dist_spec(pl, prev.position);
        let dc = dist_spec(pl, curr.position);
        if (dp >= 0) != (dc >= 0) {
            crate::clip::lemma_isect_comp_range(
                prev.position.z as int,
                curr.position.z as int,
                dp,
                dc,
            );
        }
        assert forall|j: int| 0 <= j < clip_prefix(pl, input, k).len() implies (
        #[trigger] clip_prefix(pl, input, k)[j]).position.z <= zm by {
            let base = clip_prefix(pl, input, k - 1);
            if j < base.len() {
                assert(clip_prefix(pl, input, k)[j] == base[j]);
            } else {
                let step = clip_step(pl, prev, curr);
                assert(clip_prefix(pl, input, k)[j] == step[j - base.len()]);
            }
        }
    }
}

/// Clipping cannot raise the largest camera-space depth: every output
/// vertex's z stays below any bound the input vertices satisfy, since
/// crossing points interpolate between their edge's endpoints.
pub proof fn lemma_clip_z_upper(pl: Plane, input: Seq<Vertex>, zm: int)
    requires
        forall|i: int| 0 <= i < input.len() ==> (#[trigger] input[i]).position.z <= zm,
    ensures
        forall|j: int|
            0 <= j < clip_poly(pl, input).len() ==> (#[trigger] clip_poly(pl, input)[j]).position.z
                <= zm,
{
    lemma_clip_prefix_z(pl, input, zm, input.len() as int);
}

/// Every vertex of a clipped polygon lies at most `clip_eps` outside
/// the plane just applied.
pub proof fn lemma_clip_boundary(pl: Plane, input: Seq<Vertex>)
    requires
        plane_wf(pl),
        poly_bounded(input, COORD_MAX as int),
    ensures
        forall|j: int|
            0 <= j < clip_poly(pl, input).len() ==> dist_spec(
                pl,
                #[trigger] clip_poly(pl, input)[j].position,
            ) >= -clip_eps(pl),
{
    lemma_clip_prefix_boundary(pl, input, input.len() as int);
}


/// How much one clip can erode the signed distance to any other
/// well-formed plane `q`: one rounding per position component,
/// weighted by `q`'s normal, plus the final rescale.
pub open spec fn erode_eps(q: Plane) -> int {
    (3 * norm_inf(q)) / (ONE as int) + 1
}

/// The crossing vertex the clipper interpolates lies, with respect to
/// any other plane `q`, no more than `erode_eps(q)` below the smaller
/// of its edge's two endpoint distances: the exact crossing is a
/// convex combination of the endpoints, and the roundings cost at
/// most the normal's weight per component.
proof fn lemma_isect_dist_other(pl: Plane, q: Plane, p: Vertex, c: Vertex, b: int)
    requires
        plane_wf(pl),
        plane_wf(q),
        vertex_bounded(p, COORD_MAX as int),
        vertex_bounded(c, COORD_MAX as int),
        (dist_spec(pl, p.position) >= 0) != (dist_spec(pl, c.position) >= 0),
        dist_spec(q, p.position) >= b,
        dist_spec(q, c.position) >= b,
    ensures
        dist_spec(
            q,
            isect_vertex(p, c, dist_spec(pl, p.position), dist_spec(pl, c.position)).position,
        ) >= b - erode_eps(q),
{
    let oo = ONE as int;
    let dp = dist_spec(pl, p.position);
    let dc = dist_spec(pl, c.position);
    let px = p.position.x as int;
    let py = p.position.y as int;
    let pz = p.position.z as int;
    let cx = c.position.x as int;
    let cy = c.position.y as int;
    let cz = c.position.z as int;
    let nx = q.normal.x as int;
    let ny = q.normal.y as int;
    let nz = q.normal.z as int;
    let dd = q.d as int;
    let nm = norm_inf(q);
    lemma_norm_inf_bounds(q);
    let lqp = lform(q, p.position);
    let lqc = lform(q, c.position);

    let v = isect_vertex(p, c, dp, dc);
    crate::clip::lemma_isect_comp_range(px, cx, dp, dc);
    crate::clip::lemma_isect_comp_range(py, cy, dp, dc);
    crate::clip::lemma_isect_comp_range(pz, cz, dp, dc);
    let vx = isect_comp(px, cx, dp, dc);
    let vy = isect_comp(py, cy, dp, dc);
    let vz = isect_comp(pz, cz, dp, dc);
    assert(v.position.x == vx && v.position.y == vy && v.position.z == vz);
    let lqv = lform(q, v.position);
    assert(lqv == nx * vx + ny * vy + nz * vz + dd * oo);

    let den = if dp >= 0 {
        dp - dc
    } else {
        dc - dp
    };
    assert(den > 0);
    let f = if dp >= 0 {
        dp
    } else {
        -dp
    };
    assert(0 <= f <= den);
    let gx = (cx - px) * f;
    let gy = (cy - py) * f;
    let gz = (cz - pz) * f;
    let wx = vx - px;
    let wy = vy - py;
    let wz = vz - pz;
    if dp >= 0 {
        assert(wx == gx / den && wy == gy / den && wz == gz / den);
    } else {
        assert((px - cx) * dp == gx) by (nonlinear_arith)
            requires
                f == -dp,
                gx == (cx - px) * f,
        ;
        assert((py - cy) * dp == gy) by (nonlinear_arith)
            requires
                f == -dp,
                gy == (cy - py) * f,
        ;
        assert((pz - cz) * dp == gz) by (nonlinear_arith)
            requires
                f == -dp,
                gz == (cz - pz) * f,
        ;
        assert(wx == gx / den && wy == gy / den && wz == gz / den);
    }
    vstd::arithmetic::div_mod::lemma_fundamental_div_mod(gx, den);
    vstd::arithmetic::div_mod::lemma_fundamental_div_mod(gy, den);
    vstd::arithmetic::div_mod::lemma_fundamental_div_mod(gz, den);
    let rx = gx % den;
    let ry = gy % den;
    let rz = gz % den;
    assert(0 <= rx < den && 0 <= ry < den && 0 <= rz < den) by (nonlinear_arith)
        requires
            den > 0,
            rx == gx % den,
            ry == gy % den,
            rz == gz % den,
    ;
    let rr = nx * rx + ny * ry + nz * rz;
    // Assemble `den * lqv == den * lqp + f * (lqc - lqp) - rr`.
    let ww = nx * wx + ny * wy + nz * wz;
    assert(lqv == lqp + ww) by (nonlinear_arith)
        requires
            lqv == nx * (px + wx) + ny * (py + wy) + nz * (pz + wz) + dd * oo,
            lqp == nx * px + ny * py + nz * pz + dd * oo,
            ww == nx * wx + ny * wy + nz * wz,
    ;
    assert(den * (nx * wx) == nx * gx - nx * rx) by (nonlinear_arith)
        requires
            gx == den * wx + rx,
    ;
    assert(den * (ny * wy) == ny * gy - ny * ry) by (nonlinear_arith)
        requires
            gy == den * wy + ry,
    ;
    assert(den * (nz * wz) == nz * gz - nz * rz) by (nonlinear_arith)
        requires
            gz == den * wz + rz,
    ;
    let sx = cx - px;
    let sy = cy - py;
    let sz = cz - pz;
    assert(lqc - lqp == nx * sx + ny * sy + nz * sz) by (nonlinear_arith)
        requires
            lqp == nx * px + ny * py + nz * pz + dd * oo,
            lqc == nx * cx + ny * cy + nz * cz + dd * oo,
            sx == cx - px,
            sy == cy - py,
            sz == cz - pz,
    ;
    let ax = nx * sx;
    let ay = ny * sy;
    let az = nz * sz;
    assert(nx * gx == f * ax) by (nonlinear_arith)
        requires
            gx == sx * f,
            ax == nx * sx,
    ;
    assert(ny * gy == f * ay) by (nonlinear_arith)
        requires
            gy == sy * f,
            ay == ny * sy,
    ;
    assert(nz * gz == f * az) by (nonlinear_arith)
        requires
            gz == sz * f,
            az == nz * sz,
    ;
    assert(f * (ax + ay + az) == f * ax + f * ay + f * az) by (nonlinear_arith);
    assert(nx * gx + ny * gy + nz * gz == f * (lqc - lqp));
    assert(den * lqv == den * lqp + f * (lqc - lqp) - rr) by (nonlinear_arith)
        requires
            lqv == lqp + ww,
            ww == nx * wx + ny * wy + nz * wz,
            den * (nx * wx) == nx * gx - nx * rx,
            den * (ny * wy) == ny * gy - ny * ry,
            den * (nz * wz) == nz * gz - nz * rz,
            nx * gx + ny * gy + nz * gz == f * (lqc - lqp),
            rr == nx * rx + ny * ry + nz * rz,
    ;
    // A convex combination stays above the smaller endpoint, and the
    // roundings cost at most `3 * nm` per unit of `den`.
    crate::fx::lemma_mul_bound2(nx, rx, nm, den);
    crate::fx::lemma_mul_bound2(ny, ry, nm, den);
    crate::fx::lemma_mul_bound2(nz, rz, nm, den);
    assert(rr <= 3 * (nm * den));
    let minl = if lqp <= lqc {
        lqp
    } else {
        lqc
    };
    assert(den * lqp + f * (lqc - lqp) >= den * minl) by (nonlinear_arith)
        requires
            0 <= f <= den,
            minl == if lqp <= lqc {
                lqp
            } else {
                lqc
            },
    ;
    assert(den * lqv >= den * minl - 3 * (nm * den));
    assert(lqv >= minl - 3 * nm) by (nonlinear_arith)
        requires
            den > 0,
            den * lqv >= den * minl - 3 * (nm * den),
    ;
    // Step back down to the rescaled distances.
    vstd::arithmetic::div_mod::lemma_fundamental_div_mod(lqp, oo);
    vstd::arithmetic::div_mod::lemma_fundamental_div_mod(lqc, oo);
    assert(0 <= lqp % oo < oo && 0 <= lqc % oo < oo) by (nonlinear_arith)
        requires
            oo > 0,
    ;
    assert(minl >= oo * b) by (nonlinear_arith)
        requires
            lqp == oo * (lqp / oo) + lqp % oo,
            lqc == oo * (lqc / oo) + lqc % oo,
            0 <= lqp % oo,
            0 <= lqc % oo,
            lqp / oo >= b,
            lqc / oo >= b,
            oo > 0,
            minl == if lqp <= lqc {
                lqp
            } else {
                lqc
            },
    ;
    let qq = (3 * nm) / oo;
    vstd::arithmetic::div_mod::lemma_fundamental_div_mod(3 * nm, oo);
    assert(lqv >= oo * (b - qq - 1)) by (nonlinear_arith)
        requires
            lqv >= minl - 3 * nm,
            minl >= oo * b,
            3 * nm == oo * qq + (3 * nm) % oo,
            0 <= (3 * nm) % oo < oo,
            oo > 0,
    ;
    assert(0 <= (3 * nm) % oo < oo) by (nonlinear_arith)
        requires
            oo > 0,
    ;
    vstd::arithmetic::div_mod::lemma_div_multiples_vanish(b - qq - 1, oo);
    vstd::arithmetic::div_mod::lemma_div_is_ordered(oo * (b - qq - 1), lqv, oo);
    assert(dist_spec(q, v.position) >= b - qq - 1);
}

proof fn lemma_clip_prefix_min_dist(pl: Plane, q: Plane, input: Seq<Vertex>, b: int, k: int)
    requires
        plane_wf(pl),
        plane_wf(q),
        poly_bounded(input, COORD_MAX as int),
        forall|i: int| 0 <= i < input.len() ==> dist_spec(q, (#[trigger] input[i]).position) >= b,
        0 <= k <= input.len(),
    ensures
        forall|j: int|
            0 <= j < clip_prefix(pl, input, k).len() ==> dist_spec(
                q,
                (#[trigger] clip_prefix(pl, input, k)[j]).position,
            ) >= b - erode_eps(q),
    decreases k,
{
    vstd::arithmetic::div_mod::lemma_div_pos_is_pos(3 * norm_inf(q), ONE as int);
    lemma_norm_inf_bounds(q);
    if k <= 0 {
    } else {
        lemma_clip_prefix_min_dist(pl, q, input, b, k - 1);
        let prev = prev_of(input, k - 1);
        let curr = input[k - 1];
        assert(vertex_bounded(prev, COORD_MAX as int));
        assert(vertex_bounded(curr, COORD_MAX as int));
        assert(dist_spec(q, prev.position) >= b);
        let dp = dist_spec(pl, prev.position);
        let dc = dist_spec(pl, curr.position);
        if (dp >= 0) != (dc >= 0) {
            lemma_isect_dist_other(pl, q, prev, curr, b);
        }
        assert forall|j: int| 0 <= j < clip_prefix(pl, input, k).len() implies dist_spec(
            q,
            (#[trigger] clip_prefix(pl, input, k)[j]).position,
        ) >= b - erode_eps(q) by {
            let base = clip_prefix(pl, input, k - 1);
            if j < base.len() {
                assert(clip_prefix(pl, input, k)[j] == base[j]);
            } else {
                let step = clip_step(pl, prev, curr);
                assert(clip_prefix(pl, input, k)[j] == step[j - base.len()]);
            }
        }
    }
}

/// Clipping against one plane erodes the distance to any other
/// well-formed plane by at most `erode_eps` of that plane: every
/// output vertex keeps all but `erode_eps(q)` of the smallest input
/// distance to `q`.
pub proof fn lemma_clip_min_dist(pl: Plane, q: Plane, input: Seq<Vertex>, b: int)
    requires
        plane_wf(pl),
        plane_wf(q),
        poly_bounded(input, COORD_MAX as int),
        forall|i: int| 0 <= i < input.len() ==> dist_spec(q, (#[trigger] input[i]).position) >= b,
    ensures
        forall|j: int|
            0 <= j < clip_poly(pl, input).len() ==> dist_spec(
                q,
                (#[trigger] clip_poly(pl, input)[j]).position,
            ) >= b - erode_eps(q),
{
    lemma_clip_prefix_min_dist(pl, q, input, b, input.len() as int);
}


proof fn lemma_clip_prefix_bounded(pl: Plane, input: Seq<Vertex>, k: int)
    requires
        poly_bounded(input, COORD_MAX as int),
        0 <= k <= input.len(),
    ensures
        poly_bounded(clip_prefix(pl, input, k), COORD_MAX as int),
    decreases k,
{
    if k <= 0 {
    } else {
        lemma_clip_prefix_bounded(pl, input, k - 1);
        let prev = prev_of(input, k - 1);
        let curr = input[k - 1];
        assert(vertex_bounded(prev, COORD_MAX as int));
        assert(vertex_bounded(curr, COORD_MAX as int));
        let dp = dist_spec(pl, prev.position);
        let dc = dist_spec(pl, curr.position);
        if (dp >= 0) != (dc >= 0) {
            crate::clip::lemma_isect_comp_range(prev.position.x as int, curr.position.x as int, dp, dc);
            crate::clip::lemma_isect_comp_range(prev.position.y as int, curr.position.y as int, dp, dc);
            crate::clip::lemma_isect_comp_range(prev.position.z as int, curr.position.z as int, dp, dc);
            crate::clip::lemma_isect_comp_range(prev.texcoord.x as int, curr.texcoord.x as int, dp, dc);
            crate::clip::lemma_isect_comp_range(prev.texcoord.y as int, curr.texcoord.y as int, dp, dc);
            crate::clip::lemma_isect_comp_range(prev.normal.x as int, curr.normal.x as int, dp, dc);
            crate::clip::lemma_isect_comp_range(prev.normal.y as int, curr.normal.y as int, dp, dc);
            crate::clip::lemma_isect_comp_range(prev.normal.z as int, curr.normal.z as int, dp, dc);
            assert(vertex_bounded(isect_vertex(prev, curr, dp, dc), COORD_MAX as int));
        }
        assert forall|j: int| 0 <= j < clip_prefix(pl, input, k).len() implies vertex_bounded(
            #[trigger] clip_prefix(pl, input, k)[j],
            COORD_MAX as int,
        ) by {
            let base = clip_prefix(pl, input, k - 1);
            if j < base.len() {
                assert(clip_prefix(pl, input, k)[j] == base[j]);
            } else {
                let step = clip_step(pl, prev, curr);
                assert(clip_prefix(pl, input, k)[j] == step[j - base.len()]);
            }
        }
    }
}

/// Clipping keeps every vertex inside the coordinate bound: kept
/// vertices are input vertices, and crossing points interpolate
/// between their edge's endpoints.
pub proof fn lemma_clip_poly_bounded(pl: Plane, input: Seq<Vertex>)
    requires
        poly_bounded(input, COORD_MAX as int),
    ensures
        poly_bounded(clip_poly(pl, input), COORD_MAX as int),
{
    lemma_clip_prefix_bounded(pl, input, input.len() as int);
}

/// A plane with a unit-scale normal clips and erodes by at most four
/// fixed-point units.
pub proof fn lemma_unit_plane_eps(q: Plane)
    requires
        norm_inf(q) <= ONE as int,
    ensures
        clip_eps(q) <= 4,
        erode_eps(q) <= 4,
        clip_eps(q) >= 1,
        erode_eps(q) >= 1,
{
    let oo = ONE as int;
    lemma_norm_inf_bounds(q);
    vstd::arithmetic::div_mod::lemma_div_is_ordered(3 * norm_inf(q), 3 * oo, oo);
    vstd::arithmetic::div_mod::lemma_div_multiples_vanish(3, oo);
    assert(oo * 3 == 3 * oo) by (nonlinear_arith);
    vstd::arithmetic::div_mod::lemma_div_pos_is_pos(3 * norm_inf(q), oo);
}


/// The upper-bound twin of the erosion lemma: the crossing vertex
/// lies, with respect to any other plane `q`, no more than
/// `erode_eps(q)` above the larger of its edge's two endpoint
/// distances.
proof fn lemma_isect_dist_upper(pl: Plane, q: Plane, p: Vertex, c: Vertex, bh: int)
    requires
        plane_wf(pl),
        plane_wf(q),
        vertex_bounded(p, COORD_MAX as int),
        vertex_bounded(c, COORD_MAX as int),
        (dist_spec(pl, p.position) >= 0) != (dist_spec(pl, c.position) >= 0),
        dist_spec(q, p.position) <= bh,
        dist_spec(q, c.position) <= bh,
    ensures
        dist_spec(
            q,
            isect_vertex(p, c, dist_spec(pl, p.position), dist_spec(pl, c.position)).position,
        ) <= bh + erode_eps(q),
{
    let oo = ONE as int;
    let dp = dist_spec(pl, p.position);
    let dc = dist_spec(pl, c.position);
    let px = p.position.x as int;
    let py = p.position.y as int;
    let pz = p.position.z as int;
    let cx = c.position.x as int;
    let cy = c.position.y as int;
    let cz = c.position.z as int;
    let nx = q.normal.x as int;
    let ny = q.normal.y as int;
    let nz = q.normal.z as int;
    let dd = q.d as int;
    let nm = norm_inf(q);
    lemma_norm_inf_bounds(q);
    let lqp = lform(q, p.position);
    let lqc = lform(q, c.position);

    let v = isect_vertex(p, c, dp, dc);
    crate::clip::lemma_isect_comp_range(px, cx, dp, dc);
    crate::clip::lemma_isect_comp_range(py, cy, dp, dc);
    crate::clip::lemma_isect_comp_range(pz, cz, dp, dc);
    let vx = isect_comp(px, cx, dp, dc);
    let vy = isect_comp(py, cy, dp, dc);
    let vz = isect_comp(pz, cz, dp, dc);
    assert(v.position.x == vx && v.position.y == vy && v.position.z == vz);
    let lqv = lform(q, v.position);
    assert(lqv == nx * vx + ny * vy + nz * vz + dd * oo);

    let den = if dp >= 0 {
        dp - dc
    } else {
        dc - dp
    };
    assert(den > 0);
    let f = if dp >= 0 {
        dp
    } else {
        -dp
    };
    assert(0 <= f <= den);
    let gx = (cx - px) * f;
    let gy = (cy - py) * f;
    let gz = (cz - pz) * f;
    let wx = vx - px;
    let wy = vy - py;
    let wz = vz - pz;
    if dp >= 0 {
        assert(wx == gx / den && wy == gy / den && wz == gz / den);
    } else {
        assert((px - cx) * dp == gx) by (nonlinear_arith)
            requires
                f == -dp,
                gx == (cx - px) * f,
        ;
        assert((py - cy) * dp == gy) by (nonlinear_arith)
            requires
                f == -dp,
                gy == (cy - py) * f,
        ;
        assert((pz - cz) * dp == gz) by (nonlinear_arith)
            requires
                f == -dp,
                gz == (cz - pz) * f,
        ;
        assert(wx == gx / den && wy == gy / den && wz == gz / den);
    }
    vstd::arithmetic::div_mod::lemma_fundamental_div_mod(gx, den);
    vstd::arithmetic::div_mod::lemma_fundamental_div_mod(gy, den);
    vstd::arithmetic::div_mod::lemma_fundamental_div_mod(gz, den);
    let rx = gx % den;
    let ry = gy % den;
    let rz = gz % den;
    assert(0 <= rx < den && 0 <= ry < den && 0 <= rz < den) by (nonlinear_arith)
        requires
            den > 0,
            rx == gx % den,
            ry == gy % den,
            rz == gz % den,
    ;
    let rr = nx * rx + ny * ry + nz * rz;
    let ww = nx * wx + ny * wy + nz * wz;
    assert(lqv == lqp + ww) by (nonlinear_arith)
        requires
            lqv == nx * (px + wx) + ny * (py + wy) + nz * (pz + wz) + dd * oo,
            lqp == nx * px + ny * py + nz * pz + dd * oo,
            ww == nx * wx + ny * wy + nz * wz,
    ;
    assert(den * (nx * wx) == nx * gx - nx * rx) by (nonlinear_arith)
        requires
            gx == den * wx + rx,
    ;
    assert(den * (ny * wy) == ny * gy - ny * ry) by (nonlinear_arith)
        requires
            gy == den * wy + ry,
    ;
    assert(den * (nz * wz) == nz * gz - nz * rz) by (nonlinear_arith)
        requires
            gz == den * wz + rz,
    ;
    let sx = cx - px;
    let sy = cy - py;
    let sz = cz - pz;
    assert(lqc - lqp == nx * sx + ny * sy + nz * sz) by (nonlinear_arith)
        requires
            lqp == nx * px + ny * py + nz * pz + dd * oo,
            lqc == nx * cx + ny * cy + nz * cz + dd * oo,
            sx == cx - px,
            sy == cy - py,
            sz == cz - pz,
    ;
    let ax = nx * sx;
    let ay = ny * sy;
    let az = nz * sz;
    assert(nx * gx == f * ax) by (nonlinear_arith)
        requires
            gx == sx * f,
            ax == nx * sx,
    ;
    assert(ny * gy == f * ay) by (nonlinear_arith)
        requires
            gy == sy * f,
            ay == ny * sy,
    ;
    assert(nz * gz == f * az) by (nonlinear_arith)
        requires
            gz == sz * f,
            az == nz * sz,
    ;
    assert(f * (ax + ay + az) == f * ax + f * ay + f * az) by (nonlinear_arith);
    assert(nx * gx + ny * gy + nz * gz == f * (lqc - lqp));
    assert(den * lqv == den * lqp + f * (lqc - lqp) - rr) by (nonlinear_arith)
        requires
            lqv == lqp + ww,
            ww == nx * wx + ny * wy + nz * wz,
            den * (nx * wx) == nx * gx - nx * rx,
            den * (ny * wy) == ny * gy - ny * ry,
            den * (nz * wz) == nz * gz - nz * rz,
            nx * gx + ny * gy + nz * gz == f * (lqc - lqp),
            rr == nx * rx + ny * ry + nz * rz,
    ;
    crate::fx::lemma_mul_bound2(nx, rx, nm, den);
    crate::fx::lemma_mul_bound2(ny, ry, nm, den);
    crate::fx::lemma_mul_bound2(nz, rz, nm, den);
    assert(rr >= -(3 * (nm * den)));
    let maxl = if lqp >= lqc {
        lqp
    } else {
        lqc
    };
    assert(den * lqp + f * (lqc - lqp) <= den * maxl) by (nonlinear_arith)
        requires
            0 <= f <= den,
            maxl == if lqp >= lqc {
                lqp
            } else {
                lqc
            },
    ;
    assert(den * lqv <= den * maxl + 3 * (nm * den));
    assert(lqv <= maxl + 3 * nm) by (nonlinear_arith)
        requires
            den > 0,
            den * lqv <= den * maxl + 3 * (nm * den),
    ;
    vstd::arithmetic::div_mod::lemma_fundamental_div_mod(lqp, oo);
    vstd::arithmetic::div_mod::lemma_fundamental_div_mod(lqc, oo);
    assert(0 <= lqp % oo < oo && 0 <= lqc % oo < oo) by (nonlinear_arith)
        requires
            oo > 0,
    ;
    assert(maxl <= oo * bh + oo - 1) by (nonlinear_arith)
        requires
            lqp == oo * (lqp / oo) + lqp % oo,
            lqc == oo * (lqc / oo) + lqc % oo,
            lqp % oo < oo,
            lqc % oo < oo,
            lqp / oo <= bh,
            lqc / oo <= bh,
            oo > 0,
            maxl == if lqp >= lqc {
                lqp
            } else {
                lqc
            },
    ;
    let qq = (3 * nm) / oo;
    vstd::arithmetic::div_mod::lemma_fundamental_div_mod(3 * nm, oo);
    assert(0 <= (3 * nm) % oo < oo) by (nonlinear_arith)
        requires
            oo > 0,
    ;
    assert(lqv <= oo * (bh + qq + 1) + oo - 1) by (nonlinear_arith)
        requires
            lqv <= maxl + 3 * nm,
            maxl <= oo * bh + oo - 1,
            3 * nm == oo * qq + (3 * nm) % oo,
            0 <= (3 * nm) % oo < oo,
            oo > 0,
    ;
    vstd::arithmetic::div_mod::lemma_div_is_ordered(lqv, oo * (bh + qq + 1) + oo - 1, oo);
    vstd::arithmetic::div_mod::lemma_div_multiples_vanish_fancy(bh + qq + 1, oo - 1, oo);
    assert(dist_spec(q, v.position) <= bh + qq + 1);
}

proof fn lemma_clip_prefix_max_dist(pl: Plane, q: Plane, input: Seq<Vertex>, bh: int, k: int)
    requires
        plane_wf(pl),
        plane_wf(q),
        poly_bounded(input, COORD_MAX as int),
        forall|i: int| 0 <= i < input.len() ==> dist_spec(q, (#[trigger] input[i]).position) <= bh,
        0 <= k <= input.len(),
    ensures
        forall|j: int|
            0 <= j < clip_prefix(pl, input, k).len() ==> dist_spec(
                q,
                (#[trigger] clip_prefix(pl, input, k)[j]).position,
            ) <= bh + erode_eps(q),
    decreases k,
{
    vstd::arithmetic::div_mod::lemma_div_pos_is_pos(3 * norm_inf(q), ONE as int);
    lemma_norm_inf_bounds(q);
    if k <= 0 {
    } else {
        lemma_clip_prefix_max_dist(pl, q, input, bh, k - 1);
        let prev = prev_of(input, k - 1);
        let curr = input[k - 1];
        assert(vertex_bounded(prev, COORD_MAX as int));
        assert(vertex_bounded(curr, COORD_MAX as int));
        assert(dist_spec(q, prev.position) <= bh);
        let dp = dist_spec(pl, prev.position);
        let dc = dist_spec(pl, curr.position);
        if (dp >= 0) != (dc >= 0) {
            lemma_isect_dist_upper(pl, q, prev, curr, bh);
        }
        assert forall|j: int| 0 <= j < clip_prefix(pl, input, k).len() implies dist_spec(
            q,
            (#[trigger] clip_prefix(pl, input, k)[j]).position,
        ) <= bh + erode_eps(q) by {
            let base = clip_prefix(pl, input, k - 1);
            if j < base.len() {
                assert(clip_prefix(pl, input, k)[j] == base[j]);
            } else {
                let step = clip_step(pl, prev, curr);
                assert(clip_prefix(pl, input, k)[j] == step[j - base.len()]);
            }
        }
    }
}

/// Clipping against one plane raises the distance to any other
/// well-formed plane by at most `erode_eps` of that plane.
pub proof fn lemma_clip_max_dist(pl: Plane, q: Plane, input: Seq<Vertex>, bh: int)
    requires
        plane_wf(pl),
        plane_wf(q),
        poly_bounded(input, COORD_MAX as int),
        forall|i: int| 0 <= i < input.len() ==> dist_spec(q, (#[trigger] input[i]).position) <= bh,
    ensures
        forall|j: int|
            0 <= j < clip_poly(pl, input).len() ==> dist_spec(
                q,
                (#[trigger] clip_poly(pl, input)[j]).position,
            ) <= bh + erode_eps(q),
{
    lemma_clip_prefix_max_dist(pl, q, input, bh, input.len() as int);
}

} // verus!

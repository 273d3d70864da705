//! Properties of the two-pass rasterizer.

use vstd::prelude::*;
use crate::model::Model;
use crate::rasterizer::{color_fold, covers, depth_fold, depth_of, lemma_depth_range};
use crate::render_target::DEPTH_CLEAR;
use crate::setup::{edge_spec, process_spec, raster_wf, screen_spec, RasterTriangle};
use crate::vectors::Vec2;
use crate::vertex::Vertex;

verus! {

/// A triangle whose screen-space winding yields a signed area of zero
/// or less is discarded by triangle setup, so it contributes no
/// prepared triangle and therefore no written pixel.
pub proof fn lemma_backface_cull(
    v1: Vertex,
    v2: Vertex,
    v3: Vertex,
    width: int,
    height: int,
    thf: int,
    mi: u32,
)
    requires
        ({
            let p1 = screen_spec(v1.position, width, height, thf);
            let p2 = screen_spec(v2.position, width, height, thf);
            let p3 = screen_spec(v3.position, width, height, thf);
            edge_spec(
                Vec2 { x: p1.x, y: p1.y },
                Vec2 { x: p2.x, y: p2.y },
                Vec2 { x: p3.x, y: p3.y },
            ) <= 0
        }),
    ensures
        process_spec(v1, v2, v3, width, height, thf, mi) is None,
{
}

/// Order independence of the two-pass design, at one pixel: for two
/// triangles whose depths differ wherever both cover the pixel, the
/// resolved depth and the shaded color are the same whichever of the
/// two is drawn first. With `render`'s contract, which gives every
/// pixel as these folds over the frame's triangles, the final buffers
/// of the two draw orders agree pixel for pixel.
pub proof fn lemma_order_independence(
    t1: RasterTriangle,
    t2: RasterTriangle,
    models: Seq<Model>,
    width: int,
    height: int,
    x: int,
    y: int,
    c: u32,
)
    requires
        raster_wf(t1, width, height),
        raster_wf(t2, width, height),
        covers(t1, x, y) && covers(t2, x, y) ==> depth_of(t1, x, y) != depth_of(t2, x, y),
    ensures
        depth_fold(seq![t1, t2], DEPTH_CLEAR as int, x, y) == depth_fold(
            seq![t2, t1],
            DEPTH_CLEAR as int,
            x,
            y,
        ),
        color_fold(
            seq![t1, t2],
            models,
            depth_fold(seq![t1, t2], DEPTH_CLEAR as int, x, y),
            c,
            x,
            y,
        ) == color_fold(
            seq![t2, t1],
            models,
            depth_fold(seq![t1, t2], DEPTH_CLEAR as int, x, y),
            c,
            x,
            y,
        ),
{
    let a = seq![t1, t2];
    let b = seq![t2, t1];
    let e = Seq::<RasterTriangle>::empty();
    let mn = DEPTH_CLEAR as int;
    assert(a.last() == t2 && b.last() == t1);
    assert(a.drop_last() =~= seq![t1]);
    assert(b.drop_last() =~= seq![t2]);
    assert(seq![t1].last() == t1 && seq![t2].last() == t2);
    assert(seq![t1].drop_last() =~= e);
    assert(seq![t2].drop_last() =~= e);
    assert(depth_fold(e, mn, x, y) == mn);
    assert(depth_fold(seq![t1], mn, x, y) == crate::rasterizer::depth_step(t1, mn, x, y));
    assert(depth_fold(seq![t2], mn, x, y) == crate::rasterizer::depth_step(t2, mn, x, y));
    assert(depth_fold(a, mn, x, y) == crate::rasterizer::depth_step(
        t2,
        depth_fold(seq![t1], mn, x, y),
        x,
        y,
    ));
    assert(depth_fold(b, mn, x, y) == crate::rasterizer::depth_step(
        t1,
        depth_fold(seq![t2], mn, x, y),
        x,
        y,
    ));
    if covers(t1, x, y) {
        lemma_depth_range(t1, width, height, x, y);
    }
    if covers(t2, x, y) {
        lemma_depth_range(t2, width, height, x, y);
    }
    let dv = depth_fold(a, mn, x, y);
    assert(depth_fold(b, mn, x, y) == dv);
    assert(color_fold(e, models, dv, c, x, y) == c);
    if covers(t1, x, y) && covers(t2, x, y) {
        let d1 = depth_of(t1, x, y);
        let d2 = depth_of(t2, x, y);
        if d1 > d2 {
            assert(dv == d1);
            assert(!(d2 >= dv));
            assert(color_fold(a, models, dv, c, x, y) == color_fold(seq![t1], models, dv, c, x, y));
            assert(color_fold(seq![t1], models, dv, c, x, y) == crate::rasterizer::shade_spec(
                models,
                t1,
                x,
                y,
            ));
            assert(color_fold(b, models, dv, c, x, y) == crate::rasterizer::shade_spec(
                models,
                t1,
                x,
                y,
            ));
        } else {
            assert(d2 > d1);
            assert(dv == d2);
            assert(!(d1 >= dv));
            assert(color_fold(a, models, dv, c, x, y) == crate::rasterizer::shade_spec(
                models,
                t2,
                x,
                y,
            ));
            assert(color_fold(b, models, dv, c, x, y) == color_fold(seq![t2], models, dv, c, x, y));
            assert(color_fold(seq![t2], models, dv, c, x, y) == crate::rasterizer::shade_spec(
                models,
                t2,
                x,
                y,
            ));
        }
    } else if covers(t1, x, y) {
        assert(dv == depth_of(t1, x, y));
        assert(color_fold(a, models, dv, c, x, y) == color_fold(seq![t1], models, dv, c, x, y));
        assert(color_fold(seq![t1], models, dv, c, x, y) == crate::rasterizer::shade_spec(
            models,
            t1,
            x,
            y,
        ));
        assert(color_fold(b, models, dv, c, x, y) == crate::rasterizer::shade_spec(
            models,
            t1,
            x,
            y,
        ));
    } else if covers(t2, x, y) {
        assert(dv == depth_of(t2, x, y));
        assert(color_fold(b, models, dv, c, x, y) == color_fold(seq![t2], models, dv, c, x, y));
        assert(color_fold(seq![t2], models, dv, c, x, y) == crate::rasterizer::shade_spec(
            models,
            t2,
            x,
            y,
        ));
        assert(color_fold(a, models, dv, c, x, y) == crate::rasterizer::shade_spec(
            models,
            t2,
            x,
            y,
        ));
    } else {
        assert(color_fold(a, models, dv, c, x, y) == color_fold(seq![t1], models, dv, c, x, y));
        assert(color_fold(seq![t1], models, dv, c, x, y) == color_fold(e, models, dv, c, x, y));
        assert(color_fold(b, models, dv, c, x, y) == color_fold(seq![t2], models, dv, c, x, y));
        assert(color_fold(seq![t2], models, dv, c, x, y) == color_fold(e, models, dv, c, x, y));
    }
}

/// The tolerance of interpolation at a vertex: the attribute bound
/// scaled by the vertex's reciprocal depth `iz`, the depth `dpt`
/// itself in world units, and four fixed-point units of rounding.
pub open spec fn interp_err(iz: int, dpt: int, m: int) -> int {
    (m * (-iz)) / ((crate::fx::ONE as int) * (crate::fx::ONE as int)) + (-dpt) / (
    crate::fx::ONE as int) + 4
}

/// The numeric core of interpolation exactness: when the weighted
/// terms collapse to a single vertex, the perspective-correct value
/// `((a*iz)/ONE * depth)/ONE` recovers the attribute `a` within
/// `interp_err`, where `depth` is the reciprocal of `iz`.
proof fn lemma_collapse_err(a1: int, iz: int, m: int)
    requires
        -0x1_0000_0000 <= iz <= -1,
        0 <= m,
        -m <= a1 <= m,
    ensures
        ({
            let oo = crate::fx::ONE as int;
            let dpt = -((oo * oo) / (-iz));
            let v = (((a1 * iz) / oo) * dpt) / oo;
            -interp_err(iz, dpt, m) <= v - a1 <= interp_err(iz, dpt, m)
        }),
{
    let oo = crate::fx::ONE as int;
    let oo2 = oo * oo;
    let a = -iz;
    assert(1 <= a <= oo2);
    vstd::arithmetic::div_mod::lemma_div_is_ordered(a, oo2, a);
    vstd::arithmetic::div_mod::lemma_div_by_self(a);
    crate::fx::lemma_div_bound(oo2, a, oo2);
    let dpt = -(oo2 / a);
    assert(dpt <= -1);
    assert(-oo2 <= dpt);
    let oz1 = (a1 * iz) / oo;
    let v = (oz1 * dpt) / oo;
    // Gather the three roundings on one side.
    vstd::arithmetic::div_mod::lemma_fundamental_div_mod(a1 * iz, oo);
    let r1 = (a1 * iz) % oo;
    vstd::arithmetic::div_mod::lemma_fundamental_div_mod(oo2, a);
    let r2 = oo2 % a;
    vstd::arithmetic::div_mod::lemma_fundamental_div_mod(oz1 * dpt, oo);
    let r3 = (oz1 * dpt) % oo;
    assert(0 <= r1 < oo && 0 <= r2 < a && 0 <= r3 < oo) by (nonlinear_arith)
        requires
            oo > 0,
            a > 0,
            r1 == (a1 * iz) % oo,
            r2 == oo2 % a,
            r3 == (oz1 * dpt) % oo,
    ;
    assert(iz * dpt == oo2 - r2) by (nonlinear_arith)
        requires
            a == -iz,
            oo2 == a * (oo2 / a) + r2,
            dpt == -(oo2 / a),
    ;
    assert(oo * (oz1 * dpt) == oo2 * v + oo * r3) by (nonlinear_arith)
        requires
            oz1 * dpt == oo * v + r3,
            oo2 == oo * oo,
    ;
    assert((a1 * iz) * dpt == oo * (oz1 * dpt) + r1 * dpt) by (nonlinear_arith)
        requires
            a1 * iz == oo * oz1 + r1,
    ;
    assert(a1 * (iz * dpt) == (a1 * iz) * dpt) by (nonlinear_arith);
    assert(a1 * (iz * dpt) == a1 * oo2 - a1 * r2) by (nonlinear_arith)
        requires
            iz * dpt == oo2 - r2,
    ;
    assert(oo2 * v == a1 * oo2 - a1 * r2 - r1 * dpt - oo * r3);
    assert(oo2 * (v - a1) == -(a1 * r2) - r1 * dpt - oo * r3) by (nonlinear_arith)
        requires
            oo2 * v == a1 * oo2 - a1 * r2 - r1 * dpt - oo * r3,
    ;
    crate::fx::lemma_mul_bound2(a1, r2, m, a);
    assert(0 <= -(r1 * dpt) <= oo * (-dpt)) by (nonlinear_arith)
        requires
            0 <= r1 < oo,
            dpt <= -1,
    ;
    assert(0 <= oo * r3 < oo2) by (nonlinear_arith)
        requires
            0 <= r3 < oo,
            oo > 0,
            oo2 == oo * oo,
    ;
    let k = m * a + oo * (-dpt) + oo2;
    assert(-k <= oo2 * (v - a1) <= k);
    crate::transform_laws::lemma_cancel_div(oo2, v - a1, k);
    // Split the quotient of the combined bound.
    vstd::arithmetic::div_mod::lemma_fundamental_div_mod(m * a, oo2);
    let q1 = (m * a) / oo2;
    let s1 = (m * a) % oo2;
    assert(0 <= s1 < oo2) by (nonlinear_arith)
        requires
            oo2 > 0,
            s1 == (m * a) % oo2,
    ;
    vstd::arithmetic::div_mod::lemma_fundamental_div_mod(-dpt, oo);
    let q2 = (-dpt) / oo;
    let s2 = (-dpt) % oo;
    assert(0 <= s2 < oo) by (nonlinear_arith)
        requires
            oo > 0,
            s2 == (-dpt) % oo,
    ;
    assert(q1 >= 0 && q2 >= 0) by (nonlinear_arith)
        requires
            m * a >= 0,
            m * a == oo2 * q1 + s1,
            0 <= s1 < oo2,
            -dpt >= 0,
            -dpt == oo * q2 + s2,
            0 <= s2 < oo,
            oo > 0,
            oo2 > 0,
    ;
    assert(k == oo2 * (q1 + q2 + 1) + (s1 + oo * s2)) by (nonlinear_arith)
        requires
            m * a == oo2 * q1 + s1,
            -dpt == oo * q2 + s2,
            k == m * a + oo * (-dpt) + oo2,
            oo2 == oo * oo,
    ;
    if s1 + oo * s2 < oo2 {
        vstd::arithmetic::div_mod::lemma_div_multiples_vanish_fancy(q1 + q2 + 1, s1 + oo * s2, oo2);
        assert(k / oo2 == q1 + q2 + 1);
    } else {
        assert(s1 + oo * s2 - oo2 < oo2) by (nonlinear_arith)
            requires
                0 <= s1 < oo2,
                0 <= s2 < oo,
                oo > 0,
                oo2 == oo * oo,
        ;
        assert(k == oo2 * (q1 + q2 + 2) + (s1 + oo * s2 - oo2)) by (nonlinear_arith)
            requires
                k == oo2 * (q1 + q2 + 1) + (s1 + oo * s2),
        ;
        vstd::arithmetic::div_mod::lemma_div_multiples_vanish_fancy(
            q1 + q2 + 2,
            s1 + oo * s2 - oo2,
            oo2,
        );
        assert(k / oo2 == q1 + q2 + 2);
    }
    assert(interp_err(iz, dpt, m) == q1 + q2 + 4);
}

/// Interpolation exactness at the first corner: at a pixel whose
/// center coincides with the triangle's first vertex, a
/// perspective-correct attribute recovers that vertex's attribute
/// value within `interp_err`.
pub proof fn lemma_interp_at_first_vertex(
    t: RasterTriangle,
    width: int,
    height: int,
    x: int,
    y: int,
    a1: int,
    a2: int,
    a3: int,
    m: int,
)
    requires
        raster_wf(t, width, height),
        crate::rasterizer::in_bbox(t, x, y),
        crate::rasterizer::pix(x, y) == t.v1_2d,
        0 <= m,
        -m <= a1 <= m,
    ensures
        covers(t, x, y),
        ({
            let oz1 = (a1 * t.inv_z1) / (crate::fx::ONE as int);
            let v = crate::rasterizer::persp_attr(t, x, y, oz1, a2, a3);
            let dpt = crate::rasterizer::depth_of(t, x, y);
            -interp_err(t.inv_z1 as int, dpt, m) <= v - a1 <= interp_err(t.inv_z1 as int, dpt, m)
        }),
{
    let oo = crate::fx::ONE as int;
    let oo2 = oo * oo;
    let p = crate::rasterizer::pix(x, y);
    let w0 = crate::rasterizer::w0_spec(t, x, y);
    let w1 = crate::rasterizer::w1_spec(t, x, y);
    let w2 = crate::rasterizer::w2_spec(t, x, y);
    crate::rasterizer::lemma_weight_sum(t.v1_2d, t.v2_2d, t.v3_2d, p);
    assert(w1 == 0) by (nonlinear_arith)
        requires
            w1 == edge_spec(t.v3_2d, t.v1_2d, p),
            p == t.v1_2d,
    ;
    assert(w2 == 0) by (nonlinear_arith)
        requires
            w2 == edge_spec(t.v1_2d, t.v2_2d, p),
            p == t.v1_2d,
    ;
    assert(w0 == t.area);
    assert(covers(t, x, y));
    lemma_depth_range(t, width, height, x, y);
    let iz = t.inv_z1 as int;
    // With the other two weights zero, the normalized terms collapse
    // to the first vertex's values.
    assert(w0 * iz + w1 * (t.inv_z2 as int) + w2 * (t.inv_z3 as int) == t.area * iz)
        by (nonlinear_arith)
        requires
            w0 == t.area,
            w1 == 0,
            w2 == 0,
    ;
    vstd::arithmetic::div_mod::lemma_div_multiples_vanish(iz, t.area as int);
    assert(crate::rasterizer::inv_interp(t, x, y) == iz);
    let dpt = crate::rasterizer::depth_of(t, x, y);
    assert(dpt == -(oo2 / (-iz)));
    let oz1 = (a1 * iz) / oo;
    assert(w0 * oz1 + w1 * a2 + w2 * a3 == t.area * oz1) by (nonlinear_arith)
        requires
            w0 == t.area,
            w1 == 0,
            w2 == 0,
    ;
    vstd::arithmetic::div_mod::lemma_div_multiples_vanish(oz1, t.area as int);
    assert(crate::rasterizer::persp_attr(t, x, y, oz1, a2, a3) == (oz1 * dpt) / oo);
    lemma_collapse_err(a1, iz, m);
}

/// Interpolation exactness at the second corner.
pub proof fn lemma_interp_at_second_vertex(
    t: RasterTriangle,
    width: int,
    height: int,
    x: int,
    y: int,
    a1: int,
    a2: int,
    a3: int,
    m: int,
)
    requires
        raster_wf(t, width, height),
        crate::rasterizer::in_bbox(t, x, y),
        crate::rasterizer::pix(x, y) == t.v2_2d,
        0 <= m,
        -m <= a2 <= m,
    ensures
        covers(t, x, y),
        ({
            let oz2 = (a2 * t.inv_z2) / (crate::fx::ONE as int);
            let v = crate::rasterizer::persp_attr(t, x, y, a1, oz2, a3);
            let dpt = crate::rasterizer::depth_of(t, x, y);
            -interp_err(t.inv_z2 as int, dpt, m) <= v - a2 <= interp_err(t.inv_z2 as int, dpt, m)
        }),
{
    let oo = crate::fx::ONE as int;
    let oo2 = oo * oo;
    let p = crate::rasterizer::pix(x, y);
    let w0 = crate::rasterizer::w0_spec(t, x, y);
    let w1 = crate::rasterizer::w1_spec(t, x, y);
    let w2 = crate::rasterizer::w2_spec(t, x, y);
    crate::rasterizer::lemma_weight_sum(t.v1_2d, t.v2_2d, t.v3_2d, p);
    assert(w0 == 0) by (nonlinear_arith)
        requires
            w0 == edge_spec(t.v2_2d, t.v3_2d, p),
            p == t.v2_2d,
    ;
    assert(w2 == 0) by (nonlinear_arith)
        requires
            w2 == edge_spec(t.v1_2d, t.v2_2d, p),
            p == t.v2_2d,
    ;
    assert(w1 == t.area);
    assert(covers(t, x, y));
    lemma_depth_range(t, width, height, x, y);
    let iz = t.inv_z2 as int;
    assert(w0 * (t.inv_z1 as int) + w1 * iz + w2 * (t.inv_z3 as int) == t.area * iz)
        by (nonlinear_arith)
        requires
            w1 == t.area,
            w0 == 0,
            w2 == 0,
    ;
    vstd::arithmetic::div_mod::lemma_div_multiples_vanish(iz, t.area as int);
    assert(crate::rasterizer::inv_interp(t, x, y) == iz);
    let dpt = crate::rasterizer::depth_of(t, x, y);
    assert(dpt == -(oo2 / (-iz)));
    let oz2 = (a2 * iz) / oo;
    assert(w0 * a1 + w1 * oz2 + w2 * a3 == t.area * oz2) by (nonlinear_arith)
        requires
            w1 == t.area,
            w0 == 0,
            w2 == 0,
    ;
    vstd::arithmetic::div_mod::lemma_div_multiples_vanish(oz2, t.area as int);
    assert(crate::rasterizer::persp_attr(t, x, y, a1, oz2, a3) == (oz2 * dpt) / oo);
    lemma_collapse_err(a2, iz, m);
}

/// Interpolation exactness at the third corner.
pub proof fn lemma_interp_at_third_vertex(
    t: RasterTriangle,
    width: int,
    height: int,
    x: int,
    y: int,
    a1: int,
    a2: int,
    a3: int,
    m: int,
)
    requires
        raster_wf(t, width, height),
        crate::rasterizer::in_bbox(t, x, y),
        crate::rasterizer::pix(x, y) == t.v3_2d,
        0 <= m,
        -m <= a3 <= m,
    ensures
        covers(t, x, y),
        ({
            let oz3 = (a3 * t.inv_z3) / (crate::fx::ONE as int);
            let v = crate::rasterizer::persp_attr(t, x, y, a1, a2, oz3);
            let dpt = crate::rasterizer::depth_of(t, x, y);
            -interp_err(t.inv_z3 as int, dpt, m) <= v - a3 <= interp_err(t.inv_z3 as int, dpt, m)
        }),
{
    let oo = crate::fx::ONE as int;
    let oo2 = oo * oo;
    let p = crate::rasterizer::pix(x, y);
    let w0 = crate::rasterizer::w0_spec(t, x, y);
    let w1 = crate::rasterizer::w1_spec(t, x, y);
    let w2 = crate::rasterizer::w2_spec(t, x, y);
    crate::rasterizer::lemma_weight_sum(t.v1_2d, t.v2_2d, t.v3_2d, p);
    assert(w0 == 0) by (nonlinear_arith)
        requires
            w0 == edge_spec(t.v2_2d, t.v3_2d, p),
            p == t.v3_2d,
    ;
    assert(w1 == 0) by (nonlinear_arith)
        requires
            w1 == edge_spec(t.v3_2d, t.v1_2d, p),
            p == t.v3_2d,
    ;
    assert(w2 == t.area);
    assert(covers(t, x, y));
    lemma_depth_range(t, width, height, x, y);
    let iz = t.inv_z3 as int;
    assert(w0 * (t.inv_z1 as int) + w1 * (t.inv_z2 as int) + w2 * iz == t.area * iz)
        by (nonlinear_arith)
        requires
            w2 == t.area,
            w0 == 0,
            w1 == 0,
    ;
    vstd::arithmetic::div_mod::lemma_div_multiples_vanish(iz, t.area as int);
    assert(crate::rasterizer::inv_interp(t, x, y) == iz);
    let dpt = crate::rasterizer::depth_of(t, x, y);
    assert(dpt == -(oo2 / (-iz)));
    let oz3 = (a3 * iz) / oo;
    assert(w0 * a1 + w1 * a2 + w2 * oz3 == t.area * oz3) by (nonlinear_arith)
        requires
            w2 == t.area,
            w0 == 0,
            w1 == 0,
    ;
    vstd::arithmetic::div_mod::lemma_div_multiples_vanish(oz3, t.area as int);
    assert(crate::rasterizer::persp_attr(t, x, y, a1, a2, oz3) == (oz3 * dpt) / oo);
    lemma_collapse_err(a3, iz, m);
}


/// Largest of two values (used for the depth resolution).
pub open spec fn imax(a: int, b: int) -> int {
    if a > b {
        a
    } else {
        b
    }
}

/// Folding the depth test over a concatenation folds the two parts in
/// turn.
proof fn lemma_depth_fold_concat(s1: Seq<RasterTriangle>, s2: Seq<RasterTriangle>, d: int, x: int, y: int)
    ensures
        depth_fold(s1 + s2, d, x, y) == depth_fold(s2, depth_fold(s1, d, x, y), x, y),
    decreases s2.len(),
{
    if s2.len() == 0 {
        assert(s1 + s2 =~= s1);
    } else {
        lemma_depth_fold_concat(s1, s2.drop_last(), d, x, y);
        assert((s1 + s2).drop_last() =~= s1 + s2.drop_last());
        assert((s1 + s2).last() == s2.last());
    }
}

/// The depth fold is the maximum of the start value and the fold from
/// the cleared depth: resolution is a running maximum.
proof fn lemma_depth_fold_is_max(ts: Seq<RasterTriangle>, d: int, x: int, y: int)
    requires
        d >= DEPTH_CLEAR as int,
    ensures
        depth_fold(ts, d, x, y) == imax(d, depth_fold(ts, DEPTH_CLEAR as int, x, y)),
    decreases ts.len(),
{
    if ts.len() == 0 {
    } else {
        lemma_depth_fold_is_max(ts.drop_last(), d, x, y);
    }
}

/// Every covering member's depth is at most the resolved depth.
proof fn lemma_depth_fold_dominates(ts: Seq<RasterTriangle>, d: int, x: int, y: int, i: int)
    requires
        0 <= i < ts.len(),
        covers(ts[i], x, y),
    ensures
        depth_of(ts[i], x, y) <= depth_fold(ts, d, x, y),
    decreases ts.len(),
{
    if i == ts.len() - 1 {
        assert(ts.last() == ts[i]);
    } else {
        lemma_depth_fold_dominates(ts.drop_last(), d, x, y, i);
        assert(ts.drop_last()[i] == ts[i]);
    }
}

/// Folding the color test over a concatenation folds the two parts in
/// turn.
proof fn lemma_color_fold_concat(
    s1: Seq<RasterTriangle>,
    s2: Seq<RasterTriangle>,
    models: Seq<Model>,
    dv: int,
    c: u32,
    x: int,
    y: int,
)
    ensures
        color_fold(s1 + s2, models, dv, c, x, y) == color_fold(
            s2,
            models,
            dv,
            color_fold(s1, models, dv, c, x, y),
            x,
            y,
        ),
    decreases s2.len(),
{
    if s2.len() == 0 {
        assert(s1 + s2 =~= s1);
    } else {
        lemma_color_fold_concat(s1, s2.drop_last(), models, dv, c, x, y);
        assert((s1 + s2).drop_last() =~= s1 + s2.drop_last());
        assert((s1 + s2).last() == s2.last());
    }
}

/// Whether a triangle would write the pixel in the color pass.
pub open spec fn passes(t: RasterTriangle, dv: int, x: int, y: int) -> bool {
    covers(t, x, y) && depth_of(t, x, y) >= dv
}

/// A list with no passing triangle leaves the color unchanged.
proof fn lemma_color_fold_no_pass(
    ts: Seq<RasterTriangle>,
    models: Seq<Model>,
    dv: int,
    c: u32,
    x: int,
    y: int,
)
    requires
        forall|i: int| 0 <= i < ts.len() ==> !passes(#[trigger] ts[i], dv, x, y),
    ensures
        color_fold(ts, models, dv, c, x, y) == c,
    decreases ts.len(),
{
    if ts.len() == 0 {
    } else {
        assert(!passes(ts.last(), dv, x, y));
        lemma_color_fold_no_pass(ts.drop_last(), models, dv, c, x, y);
    }
}

/// The same prepared triangle under another owning index.
pub open spec fn retag(t: RasterTriangle, mi: u32) -> RasterTriangle {
    RasterTriangle { model_index: mi, ..t }
}

/// Coverage, depth and the interpolated attributes ignore the owning
/// index.
proof fn lemma_retag_invariant(t: RasterTriangle, mi: u32, x: int, y: int)
    ensures
        covers(retag(t, mi), x, y) == covers(t, x, y),
        depth_of(retag(t, mi), x, y) == depth_of(t, x, y),
        crate::rasterizer::tex_of(retag(t, mi), x, y) == crate::rasterizer::tex_of(t, x, y),
        crate::rasterizer::normal_of(retag(t, mi), x, y) == crate::rasterizer::normal_of(t, x, y),
{
}

/// Triangle setup under another owning index yields the same
/// preparation, retagged.
proof fn lemma_process_retag(
    v1: Vertex,
    v2: Vertex,
    v3: Vertex,
    width: int,
    height: int,
    thf: int,
    mi1: u32,
    mi2: u32,
)
    ensures
        process_spec(v1, v2, v3, width, height, thf, mi2) == match process_spec(
            v1,
            v2,
            v3,
            width,
            height,
            thf,
            mi1,
        ) {
            Option::Some(t) => Option::Some(retag(t, mi2)),
            Option::None => Option::<RasterTriangle>::None,
        },
{
}

/// The prepared triangles of a fan under another owning index are the
/// retagged ones.
proof fn lemma_fan_retag(
    fan: Seq<[Vertex; 3]>,
    width: int,
    height: int,
    thf: int,
    mi1: u32,
    mi2: u32,
)
    ensures
        crate::rasterizer::tris_from_fan(fan, width, height, thf, mi2) =~= crate::rasterizer::tris_from_fan(
            fan,
            width,
            height,
            thf,
            mi1,
        ).map_values(|t: RasterTriangle| retag(t, mi2)),
    decreases fan.len(),
{
    let f1 = crate::rasterizer::tris_from_fan(fan, width, height, thf, mi1);
    let f2 = crate::rasterizer::tris_from_fan(fan, width, height, thf, mi2);
    if fan.len() == 0 {
    } else {
        lemma_fan_retag(fan.drop_last(), width, height, thf, mi1, mi2);
        lemma_process_retag(
            fan.last()@[0],
            fan.last()@[1],
            fan.last()@[2],
            width,
            height,
            thf,
            mi1,
            mi2,
        );
    }
}

/// A model's prepared triangles under another owning index are the
/// retagged ones.
proof fn lemma_model_tris_retag(
    cam: crate::camera::Camera,
    model: Model,
    mi1: u32,
    mi2: u32,
    width: int,
    height: int,
    k: int,
)
    ensures
        crate::rasterizer::model_tris(cam, model, mi2, width, height, k) =~= crate::rasterizer::model_tris(
            cam,
            model,
            mi1,
            width,
            height,
            k,
        ).map_values(|t: RasterTriangle| retag(t, mi2)),
    decreases k,
{
    if k <= 0 {
    } else {
        lemma_model_tris_retag(cam, model, mi1, mi2, width, height, k - 1);
        lemma_fan_retag(
            crate::triangulate::fan_spec(
                crate::rasterizer::poly_of_tri(cam, model, k - 1, width, height),
            ),
            width,
            height,
            cam.tan_half_fov as int,
            mi1,
            mi2,
        );
    }
}

/// Every prepared triangle of a model carries that model's index.
proof fn lemma_model_tris_index(
    cam: crate::camera::Camera,
    model: Model,
    mi: u32,
    width: int,
    height: int,
    k: int,
)
    ensures
        forall|i: int|
            0 <= i < crate::rasterizer::model_tris(cam, model, mi, width, height, k).len()
                ==> (#[trigger] crate::rasterizer::model_tris(cam, model, mi, width, height, k)[i]).model_index
                == mi,
    decreases k,
{
    let whole = crate::rasterizer::model_tris(cam, model, mi, width, height, k);
    if k <= 0 {
    } else {
        lemma_model_tris_index(cam, model, mi, width, height, k - 1);
        let front = crate::rasterizer::model_tris(cam, model, mi, width, height, k - 1);
        let fan = crate::triangulate::fan_spec(
            crate::rasterizer::poly_of_tri(cam, model, k - 1, width, height),
        );
        lemma_fan_index(fan, width, height, cam.tan_half_fov as int, mi);
        let tail = crate::rasterizer::tris_from_fan(
            fan,
            width,
            height,
            cam.tan_half_fov as int,
            mi,
        );
        assert forall|i: int| 0 <= i < whole.len() implies (#[trigger] whole[i]).model_index
            == mi by {
            if i < front.len() {
                assert(whole[i] == front[i]);
            } else {
                assert(whole[i] == tail[i - front.len()]);
            }
        }
    }
}

proof fn lemma_fan_index(fan: Seq<[Vertex; 3]>, width: int, height: int, thf: int, mi: u32)
    ensures
        forall|i: int|
            0 <= i < crate::rasterizer::tris_from_fan(fan, width, height, thf, mi).len()
                ==> (#[trigger] crate::rasterizer::tris_from_fan(fan, width, height, thf, mi)[i]).model_index
                == mi,
    decreases fan.len(),
{
    let whole = crate::rasterizer::tris_from_fan(fan, width, height, thf, mi);
    if fan.len() == 0 {
    } else {
        lemma_fan_index(fan.drop_last(), width, height, thf, mi);
        let front = crate::rasterizer::tris_from_fan(fan.drop_last(), width, height, thf, mi);
        assert forall|i: int| 0 <= i < whole.len() implies (#[trigger] whole[i]).model_index
            == mi by {
            if i < front.len() {
                assert(whole[i] == front[i]);
            }
        }
    }
}


/// The resolved depth never drops below its start value.
proof fn lemma_depth_fold_ge(ts: Seq<RasterTriangle>, d: int, x: int, y: int)
    ensures
        depth_fold(ts, d, x, y) >= d,
    decreases ts.len(),
{
    if ts.len() == 0 {
    } else {
        lemma_depth_fold_ge(ts.drop_last(), d, x, y);
    }
}

/// Retagging the owning indices does not change the resolved depth.
proof fn lemma_depth_fold_retag(ts: Seq<RasterTriangle>, mi: u32, d: int, x: int, y: int)
    ensures
        depth_fold(ts.map_values(|t: RasterTriangle| retag(t, mi)), d, x, y) == depth_fold(
            ts,
            d,
            x,
            y,
        ),
    decreases ts.len(),
{
    let ms = ts.map_values(|t: RasterTriangle| retag(t, mi));
    if ts.len() == 0 {
    } else {
        assert(ms.drop_last() =~= ts.drop_last().map_values(|t: RasterTriangle| retag(t, mi)));
        assert(ms.last() == retag(ts.last(), mi));
        lemma_depth_fold_retag(ts.drop_last(), mi, d, x, y);
        lemma_retag_invariant(ts.last(), mi, x, y);
    }
}

/// Retagging the owning indices to a model list that assigns the same
/// shader does not change the shaded color.
proof fn lemma_color_fold_retag(
    ts: Seq<RasterTriangle>,
    mi: u32,
    models1: Seq<Model>,
    models2: Seq<Model>,
    dv: int,
    c: u32,
    x: int,
    y: int,
)
    requires
        forall|i: int|
            0 <= i < ts.len() ==> models2[mi as int].shader == models1[(
            #[trigger] ts[i]).model_index as int].shader,
    ensures
        color_fold(ts.map_values(|t: RasterTriangle| retag(t, mi)), models2, dv, c, x, y)
            == color_fold(ts, models1, dv, c, x, y),
    decreases ts.len(),
{
    let ms = ts.map_values(|t: RasterTriangle| retag(t, mi));
    if ts.len() == 0 {
    } else {
        assert(ms.drop_last() =~= ts.drop_last().map_values(|t: RasterTriangle| retag(t, mi)));
        assert(ms.last() == retag(ts.last(), mi));
        lemma_color_fold_retag(ts.drop_last(), mi, models1, models2, dv, c, x, y);
        lemma_retag_invariant(ts.last(), mi, x, y);
        assert(crate::rasterizer::shade_spec(models2, retag(ts.last(), mi), x, y)
            == crate::rasterizer::shade_spec(models1, ts.last(), x, y));
    }
}

/// Order independence at the rendering contract: for two scenes that
/// differ only in the submission order of their two models, and a
/// pixel where any two triangles prepared from different models have
/// different depths wherever both cover it, the resolved depth and
/// the shaded color `render`'s contract fixes for that pixel are the
/// same in both scenes.
pub proof fn lemma_render_order_independence(
    sa: crate::scene::Scene,
    sb: crate::scene::Scene,
    width: int,
    height: int,
    x: int,
    y: int,
    c: u32,
)
    requires
        sb.camera == sa.camera,
        sa.models.len() == 2,
        sb.models.len() == 2,
        sb.models@[0] == sa.models@[1],
        sb.models@[1] == sa.models@[0],
        ({
            let cam = sa.camera;
            let s1 = crate::rasterizer::model_tris(
                cam,
                sa.models@[0],
                0u32,
                width,
                height,
                sa.models@[0].vertices.len() as int / 3,
            );
            let s2 = crate::rasterizer::model_tris(
                cam,
                sa.models@[1],
                1u32,
                width,
                height,
                sa.models@[1].vertices.len() as int / 3,
            );
            forall|i: int, j: int|
                0 <= i < s1.len() && 0 <= j < s2.len() && covers(#[trigger] s1[i], x, y) && covers(
                    #[trigger] s2[j],
                    x,
                    y,
                ) ==> depth_of(s1[i], x, y) != depth_of(s2[j], x, y)
        }),
    ensures
        depth_fold(
            crate::rasterizer::scene_tris(sa, width, height),
            DEPTH_CLEAR as int,
            x,
            y,
        ) == depth_fold(crate::rasterizer::scene_tris(sb, width, height), DEPTH_CLEAR as int, x, y),
        color_fold(
            crate::rasterizer::scene_tris(sa, width, height),
            sa.models@,
            depth_fold(crate::rasterizer::scene_tris(sa, width, height), DEPTH_CLEAR as int, x, y),
            c,
            x,
            y,
        ) == color_fold(
            crate::rasterizer::scene_tris(sb, width, height),
            sb.models@,
            depth_fold(crate::rasterizer::scene_tris(sb, width, height), DEPTH_CLEAR as int, x, y),
            c,
            x,
            y,
        ),
{
    let mn = DEPTH_CLEAR as int;
    let cam = sa.camera;
    let m0 = sa.models@[0];
    let m1 = sa.models@[1];
    let k0 = sa.models@[0].vertices.len() as int / 3;
    let k1 = sa.models@[1].vertices.len() as int / 3;
    let s1 = crate::rasterizer::model_tris(cam, m0, 0u32, width, height, k0);
    let s2 = crate::rasterizer::model_tris(cam, m1, 1u32, width, height, k1);
    let s2r = crate::rasterizer::model_tris(cam, m1, 0u32, width, height, k1);
    let s1r = crate::rasterizer::model_tris(cam, m0, 1u32, width, height, k0);
    // The two scenes' prepared lists: the same two groups, swapped and
    // retagged.
    let ta = crate::rasterizer::scene_tris(sa, width, height);
    let tb = crate::rasterizer::scene_tris(sb, width, height);
    assert(crate::rasterizer::scene_tris_upto(sa, width, height, 0) =~= Seq::<
        RasterTriangle,
    >::empty());
    assert(crate::rasterizer::scene_tris_upto(sa, width, height, 1) =~= s1);
    assert(ta =~= s1 + s2);
    assert(crate::rasterizer::scene_tris_upto(sb, width, height, 0) =~= Seq::<
        RasterTriangle,
    >::empty());
    assert(crate::rasterizer::scene_tris_upto(sb, width, height, 1) =~= s2r);
    assert(tb =~= s2r + s1r);
    lemma_model_tris_retag(cam, m1, 1u32, 0u32, width, height, k1);
    lemma_model_tris_retag(cam, m0, 0u32, 1u32, width, height, k0);
    assert(s2r =~= s2.map_values(|t: RasterTriangle| retag(t, 0u32)));
    assert(s1r =~= s1.map_values(|t: RasterTriangle| retag(t, 1u32)));
    // The resolved depth is the maximum of the two groups' peaks,
    // independent of order and of the tags.
    let f1 = depth_fold(s1, mn, x, y);
    let f2 = depth_fold(s2, mn, x, y);
    lemma_depth_fold_concat(s1, s2, mn, x, y);
    lemma_depth_fold_ge(s1, mn, x, y);
    lemma_depth_fold_is_max(s2, f1, x, y);
    let da = depth_fold(ta, mn, x, y);
    assert(da == imax(f1, f2));
    lemma_depth_fold_concat(s2r, s1r, mn, x, y);
    lemma_depth_fold_retag(s2, 0u32, mn, x, y);
    lemma_depth_fold_ge(s2, mn, x, y);
    lemma_depth_fold_retag(s1, 1u32, f2, x, y);
    lemma_depth_fold_is_max(s1, f2, x, y);
    let db = depth_fold(tb, mn, x, y);
    assert(db == imax(f2, f1));
    assert(da == db);
    // Colors: the retagged groups shade identically, and all passing
    // triangles lie in one group, so the order cannot matter.
    lemma_model_tris_index(cam, m0, 0u32, width, height, k0);
    lemma_model_tris_index(cam, m1, 1u32, width, height, k1);
    lemma_color_fold_concat(s1, s2, sa.models@, da, c, x, y);
    lemma_color_fold_concat(s2r, s1r, sb.models@, da, c, x, y);
    let c1 = color_fold(s1, sa.models@, da, c, x, y);
    lemma_color_fold_retag(s2, 0u32, sa.models@, sb.models@, da, c, x, y);
    lemma_color_fold_retag(
        s1,
        1u32,
        sa.models@,
        sb.models@,
        da,
        color_fold(s2, sa.models@, da, c, x, y),
        x,
        y,
    );
    if exists|j: int| 0 <= j < s2.len() && passes(#[trigger] s2[j], da, x, y) {
        let j = choose|j: int| 0 <= j < s2.len() && passes(#[trigger] s2[j], da, x, y);
        lemma_depth_fold_dominates(s2, mn, x, y, j);
        assert(depth_of(s2[j], x, y) == da);
        assert forall|i: int| 0 <= i < s1.len() implies !passes(#[trigger] s1[i], da, x, y) by {
            if covers(s1[i], x, y) {
                lemma_depth_fold_dominates(s1, mn, x, y, i);
            }
        }
        lemma_color_fold_no_pass(s1, sa.models@, da, c, x, y);
        lemma_color_fold_no_pass(
            s1,
            sa.models@,
            da,
            color_fold(s2, sa.models@, da, c, x, y),
            x,
            y,
        );
    } else {
        lemma_color_fold_no_pass(s2, sa.models@, da, c1, x, y);
        lemma_color_fold_no_pass(s2, sa.models@, da, c, x, y);
    }
    assert(color_fold(ta, sa.models@, da, c, x, y) == color_fold(tb, sb.models@, da, c, x, y));
}

} // verus!

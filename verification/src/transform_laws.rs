//! The transform round trip: `toLocalPoint(toWorldPoint(p))` returns
//! `p` up to a small tolerance.
//!
//! The position offset cancels exactly, so the question is the two
//! basis applications. With the inverse basis the transpose of the
//! basis, the round trip composes each coordinate from the Gram
//! products of the basis columns; how close those are to a scaled
//! identity, together with one rounding per component per
//! application, bounds the error.

use vstd::prelude::*;
use crate::fx::{COORD_MAX, ONE};
use crate::transform::{
    apply_basis, apply_comp, to_local_point_spec, to_world_point_spec, transform_wf, Transform,
    POINT_MAX,
};
use crate::vectors::{vec3_bounded, Vec3};

verus! {

/// The exact (unscaled) dot product of two vectors.
pub open spec fn exact_dot(a: Vec3, b: Vec3) -> int {
    a.x * b.x + a.y * b.y + a.z * b.z
}

/// The basis columns form an orthonormal set at scale `ONE`, up to
/// `eta`: diagonal Gram products within `eta` of `ONE * ONE`,
/// off-diagonal ones within `eta` of zero.
pub open spec fn basis_ortho(b: (Vec3, Vec3, Vec3), eta: int) -> bool {
    &&& -eta <= exact_dot(b.0, b.0) - (ONE as int) * (ONE as int) <= eta
    &&& -eta <= exact_dot(b.1, b.1) - (ONE as int) * (ONE as int) <= eta
    &&& -eta <= exact_dot(b.2, b.2) - (ONE as int) * (ONE as int) <= eta
    &&& -eta <= exact_dot(b.0, b.1) <= eta
    &&& -eta <= exact_dot(b.0, b.2) <= eta
    &&& -eta <= exact_dot(b.1, b.2) <= eta
}

/// The round-trip tolerance: the Gram defect scaled by the coordinate
/// bound, plus five fixed-point units of rounding.
pub open spec fn rt_err(m: int, eta: int) -> int {
    (3 * m * eta) / ((ONE as int) * (ONE as int)) + 5
}

/// An integer bounded after multiplication by a positive `d` is
/// bounded by the quotient, within one.
pub proof fn lemma_cancel_div(d: int, delta: int, k: int)
    requires
        d > 0,
        k >= 0,
        -k <= d * delta <= k,
    ensures
        -(k / d) - 1 <= delta <= k / d + 1,
{
    vstd::arithmetic::div_mod::lemma_fundamental_div_mod(k, d);
    let q = k / d;
    let r = k % d;
    assert(0 <= r < d) by (nonlinear_arith)
        requires
            d > 0,
            r == k % d,
    ;
    assert(q >= 0) by (nonlinear_arith)
        requires
            d > 0,
            k >= 0,
            k == d * q + r,
            0 <= r < d,
    ;
    assert(delta <= q + 1) by (nonlinear_arith)
        requires
            d > 0,
            d * delta <= k,
            k == d * q + r,
            0 <= r < d,
    ;
    assert(-(q + 1) <= delta) by (nonlinear_arith)
        requires
            d > 0,
            -k <= d * delta,
            k == d * q + r,
            0 <= r < d,
    ;
}

/// One coordinate of the round trip: applying the row `d` to the
/// floored image `w` of `p` lands within `rt_err` of the coordinate
/// `pk` selected by the Gram targets `(gg0, gg1, gg2)`.
proof fn lemma_rt_comp(
    c0: Vec3,
    c1: Vec3,
    c2: Vec3,
    d: Vec3,
    p: Vec3,
    eta: int,
    m: int,
    gg0: int,
    gg1: int,
    gg2: int,
    pk: int,
)
    requires
        vec3_bounded(c0, ONE as int),
        vec3_bounded(c1, ONE as int),
        vec3_bounded(c2, ONE as int),
        vec3_bounded(d, ONE as int),
        vec3_bounded(p, m),
        0 <= m <= POINT_MAX,
        0 <= eta,
        -eta <= exact_dot(d, c0) - gg0 <= eta,
        -eta <= exact_dot(d, c1) - gg1 <= eta,
        -eta <= exact_dot(d, c2) - gg2 <= eta,
        gg0 * p.x + gg1 * p.y + gg2 * p.z == pk * ((ONE as int) * (ONE as int)),
    ensures
        ({
            let w = apply_basis(c0, c1, c2, p);
            let v = apply_comp(
                d.x as int,
                d.y as int,
                d.z as int,
                w.x as int,
                w.y as int,
                w.z as int,
            );
            -rt_err(m, eta) <= v - pk <= rt_err(m, eta)
        }),
{
    let oo = ONE as int;
    let oo2 = oo * oo;
    let px = p.x as int;
    let py = p.y as int;
    let pz = p.z as int;
    crate::transform::lemma_apply_bound(c0, c1, c2, p, m);
    let w = apply_basis(c0, c1, c2, p);
    let ux = c0.x * px + c1.x * py + c2.x * pz;
    let uy = c0.y * px + c1.y * py + c2.y * pz;
    let uz = c0.z * px + c1.z * py + c2.z * pz;
    let wx = w.x as int;
    let wy = w.y as int;
    let wz = w.z as int;
    assert(wx == ux / oo && wy == uy / oo && wz == uz / oo);
    vstd::arithmetic::div_mod::lemma_fundamental_div_mod(ux, oo);
    vstd::arithmetic::div_mod::lemma_fundamental_div_mod(uy, oo);
    vstd::arithmetic::div_mod::lemma_fundamental_div_mod(uz, oo);
    let rx = ux % oo;
    let ry = uy % oo;
    let rz = uz % oo;
    assert(0 <= rx < oo && 0 <= ry < oo && 0 <= rz < oo) by (nonlinear_arith)
        requires
            oo > 0,
            rx == ux % oo,
            ry == uy % oo,
            rz == uz % oo,
    ;
    let s = d.x * wx + d.y * wy + d.z * wz;
    let v = apply_comp(d.x as int, d.y as int, d.z as int, wx, wy, wz);
    assert(v == s / oo);
    vstd::arithmetic::div_mod::lemma_fundamental_div_mod(s, oo);
    let rv = s % oo;
    assert(0 <= rv < oo) by (nonlinear_arith)
        requires
            oo > 0,
            rv == s % oo,
    ;
    // oo * s == sum of d-weighted exact images minus the roundings.
    assert(oo * (d.x * wx) == d.x * ux - d.x * rx) by (nonlinear_arith)
        requires
            ux == oo * wx + rx,
    ;
    assert(oo * (d.y * wy) == d.y * uy - d.y * ry) by (nonlinear_arith)
        requires
            uy == oo * wy + ry,
    ;
    assert(oo * (d.z * wz) == d.z * uz - d.z * rz) by (nonlinear_arith)
        requires
            uz == oo * wz + rz,
    ;
    assert(oo * s == d.x * ux + d.y * uy + d.z * uz - (d.x * rx + d.y * ry + d.z * rz))
        by (nonlinear_arith)
        requires
            s == d.x * wx + d.y * wy + d.z * wz,
            oo * (d.x * wx) == d.x * ux - d.x * rx,
            oo * (d.y * wy) == d.y * uy - d.y * ry,
            oo * (d.z * wz) == d.z * uz - d.z * rz,
    ;
    // The d-weighted exact images regroup along the Gram products.
    let dx = d.x as int;
    let dy = d.y as int;
    let dz = d.z as int;
    let c0x = c0.x as int;
    let c0y = c0.y as int;
    let c0z = c0.z as int;
    let c1x = c1.x as int;
    let c1y = c1.y as int;
    let c1z = c1.z as int;
    let c2x = c2.x as int;
    let c2y = c2.y as int;
    let c2z = c2.z as int;
    assert(dx * (c0x * px + c1x * py + c2x * pz) == dx * (c0x * px) + dx * (c1x * py) + dx * (c2x
        * pz)) by (nonlinear_arith);
    assert(dx * (c0x * px) == px * (dx * c0x)) by (nonlinear_arith);
    assert(dx * (c1x * py) == py * (dx * c1x)) by (nonlinear_arith);
    assert(dx * (c2x * pz) == pz * (dx * c2x)) by (nonlinear_arith);
    assert(dy * (c0y * px + c1y * py + c2y * pz) == dy * (c0y * px) + dy * (c1y * py) + dy * (c2y
        * pz)) by (nonlinear_arith);
    assert(dy * (c0y * px) == px * (dy * c0y)) by (nonlinear_arith);
    assert(dy * (c1y * py) == py * (dy * c1y)) by (nonlinear_arith);
    assert(dy * (c2y * pz) == pz * (dy * c2y)) by (nonlinear_arith);
    assert(dz * (c0z * px + c1z * py + c2z * pz) == dz * (c0z * px) + dz * (c1z * py) + dz * (c2z
        * pz)) by (nonlinear_arith);
    assert(dz * (c0z * px) == px * (dz * c0z)) by (nonlinear_arith);
    assert(dz * (c1z * py) == py * (dz * c1z)) by (nonlinear_arith);
    assert(dz * (c2z * pz) == pz * (dz * c2z)) by (nonlinear_arith);
    assert(px * (dx * c0x + dy * c0y + dz * c0z) == px * (dx * c0x) + px * (dy * c0y) + px * (dz
        * c0z)) by (nonlinear_arith);
    assert(py * (dx * c1x + dy * c1y + dz * c1z) == py * (dx * c1x) + py * (dy * c1y) + py * (dz
        * c1z)) by (nonlinear_arith);
    assert(pz * (dx * c2x + dy * c2y + dz * c2z) == pz * (dx * c2x) + pz * (dy * c2y) + pz * (dz
        * c2z)) by (nonlinear_arith);
    assert(d.x * ux + d.y * uy + d.z * uz == px * exact_dot(d, c0) + py * exact_dot(d, c1) + pz
        * exact_dot(d, c2));
    let e0 = exact_dot(d, c0) - gg0;
    let e1 = exact_dot(d, c1) - gg1;
    let e2 = exact_dot(d, c2) - gg2;
    assert(px * exact_dot(d, c0) + py * exact_dot(d, c1) + pz * exact_dot(d, c2) == pk * oo2 + (px
        * e0 + py * e1 + pz * e2)) by (nonlinear_arith)
        requires
            e0 == exact_dot(d, c0) - gg0,
            e1 == exact_dot(d, c1) - gg1,
            e2 == exact_dot(d, c2) - gg2,
            gg0 * px + gg1 * py + gg2 * pz == pk * oo2,
    ;
    let ee = px * e0 + py * e1 + pz * e2;
    crate::fx::lemma_mul_bound2(px, e0, m, eta);
    crate::fx::lemma_mul_bound2(py, e1, m, eta);
    crate::fx::lemma_mul_bound2(pz, e2, m, eta);
    assert(-(3 * (m * eta)) <= ee <= 3 * (m * eta));
    let rr = d.x * rx + d.y * ry + d.z * rz;
    crate::fx::lemma_mul_bound2(d.x as int, rx, oo, oo);
    crate::fx::lemma_mul_bound2(d.y as int, ry, oo, oo);
    crate::fx::lemma_mul_bound2(d.z as int, rz, oo, oo);
    assert(-(3 * oo2) <= rr <= 3 * oo2);
    assert(oo * s == pk * oo2 + ee - rr);
    assert(oo2 * v == oo * s - oo * rv) by (nonlinear_arith)
        requires
            s == oo * v + rv,
            oo2 == oo * oo,
    ;
    assert(oo2 * (v - pk) == ee - rr - oo * rv) by (nonlinear_arith)
        requires
            oo2 * v == oo * s - oo * rv,
            oo * s == pk * oo2 + ee - rr,
    ;
    assert(0 <= oo * rv <= oo2) by (nonlinear_arith)
        requires
            0 <= rv < oo,
            oo > 0,
            oo2 == oo * oo,
    ;
    let k = 3 * (m * eta) + 4 * oo2;
    assert(-k <= oo2 * (v - pk) <= k);
    lemma_cancel_div(oo2, v - pk, k);
    // Split the quotient of the combined bound.
    vstd::arithmetic::div_mod::lemma_fundamental_div_mod(3 * (m * eta), oo2);
    let q = (3 * (m * eta)) / oo2;
    let r = (3 * (m * eta)) % oo2;
    assert(0 <= r < oo2) by (nonlinear_arith)
        requires
            oo2 > 0,
            r == (3 * (m * eta)) % oo2,
    ;
    assert(k == oo2 * (q + 4) + r) by (nonlinear_arith)
        requires
            3 * (m * eta) == oo2 * q + r,
            k == 3 * (m * eta) + 4 * oo2,
    ;
    vstd::arithmetic::div_mod::lemma_div_multiples_vanish_fancy(q + 4, r, oo2);
    assert(k / oo2 == q + 4);
    assert(3 * (m * eta) == 3 * m * eta) by (nonlinear_arith);
}

/// A fixed-point product of two values within `ONE` stays within
/// `ONE`.
proof fn lemma_scale_range(a: int, b: int)
    requires
        -(ONE as int) <= a <= ONE as int,
        -(ONE as int) <= b <= ONE as int,
    ensures
        -(ONE as int) <= crate::vectors::scale_spec(a, b) <= ONE as int,
{
    let oo = ONE as int;
    crate::fx::lemma_mul_bound_abs(a, b, oo);
    vstd::arithmetic::div_mod::lemma_div_is_ordered(a * b, oo * oo, oo);
    vstd::arithmetic::div_mod::lemma_div_is_ordered(-(oo * oo), a * b, oo);
    vstd::arithmetic::div_mod::lemma_div_multiples_vanish(oo, oo);
    vstd::arithmetic::div_mod::lemma_div_multiples_vanish(-oo, oo);
    assert(oo * oo == (oo) * (oo) && oo * (-oo) == -(oo * oo)) by (nonlinear_arith);
}

/// The basis `set_rotation` composes from near-Pythagorean
/// sine/cosine pairs is near-orthonormal: if each pair's squared sum
/// is within `e1` (pitch) and `e2` (yaw) of `ONE^2`, every Gram
/// product of the basis columns is within `e1 + e2 + 6*ONE` of the
/// scaled identity. Together with the round-trip law this closes the
/// chain from any yaw and pitch to the round trip's tolerance.
pub proof fn lemma_rotation_basis_ortho(ps: i64, pc: i64, ys: i64, yc: i64, e1: int, e2: int)
    requires
        -ONE <= ps <= ONE,
        -ONE <= pc <= ONE,
        -ONE <= ys <= ONE,
        -ONE <= yc <= ONE,
        0 <= e1,
        0 <= e2,
        -e1 <= ps * ps + pc * pc - (ONE as int) * (ONE as int) <= e1,
        -e2 <= ys * ys + yc * yc - (ONE as int) * (ONE as int) <= e2,
    ensures
        basis_ortho(
            crate::transform::basis_spec(ps as int, pc as int, ys as int, yc as int),
            e1 + e2 + 6 * (ONE as int),
        ),
{
    let oo = ONE as int;
    let oo2 = oo * oo;
    let eta = e1 + e2 + 6 * oo;
    let b = crate::transform::basis_spec(ps as int, pc as int, ys as int, yc as int);
    let nps = -(ps as int);
    let psv = ps as int;
    let pcv = pc as int;
    let ysv = ys as int;
    let ycv = yc as int;
    let dp = psv * psv + pcv * pcv - oo2;
    let dy = ysv * ysv + ycv * ycv - oo2;
    // The four rounded entries and their rounding remainders.
    lemma_scale_range(ysv, nps);
    lemma_scale_range(ycv, nps);
    lemma_scale_range(ysv, pcv);
    lemma_scale_range(ycv, pcv);
    let jx = crate::vectors::scale_spec(ysv, nps);
    let jz = crate::vectors::scale_spec(ycv, nps);
    let kx = crate::vectors::scale_spec(ysv, pcv);
    let kz = crate::vectors::scale_spec(ycv, pcv);
    assert(b.0 == (Vec3 { x: yc, y: 0, z: (-ysv) as i64 }));
    assert(b.1.x == jx && b.1.y == pc && b.1.z == jz);
    assert(b.2.x == kx && b.2.y == ps && b.2.z == kz);
    vstd::arithmetic::div_mod::lemma_fundamental_div_mod(ysv * nps, oo);
    vstd::arithmetic::div_mod::lemma_fundamental_div_mod(ycv * nps, oo);
    vstd::arithmetic::div_mod::lemma_fundamental_div_mod(ysv * pcv, oo);
    vstd::arithmetic::div_mod::lemma_fundamental_div_mod(ycv * pcv, oo);
    let rjx = (ysv * nps) % oo;
    let rjz = (ycv * nps) % oo;
    let rkx = (ysv * pcv) % oo;
    let rkz = (ycv * pcv) % oo;
    assert(0 <= rjx < oo && 0 <= rjz < oo && 0 <= rkx < oo && 0 <= rkz < oo) by (nonlinear_arith)
        requires
            oo > 0,
            rjx == (ysv * nps) % oo,
            rjz == (ycv * nps) % oo,
            rkx == (ysv * pcv) % oo,
            rkz == (ycv * pcv) % oo,
    ;
    let aa = ysv * nps;
    let bb = ycv * nps;
    let a2 = ysv * pcv;
    let b2 = ycv * pcv;
    crate::fx::lemma_mul_bound_abs(ysv, nps, oo);
    crate::fx::lemma_mul_bound_abs(ycv, nps, oo);
    crate::fx::lemma_mul_bound_abs(ysv, pcv, oo);
    crate::fx::lemma_mul_bound_abs(ycv, pcv, oo);
    assert(oo * jx == aa - rjx && oo * jz == bb - rjz && oo * kx == a2 - rkx && oo * kz == b2
        - rkz);
    // The first column is exact, so its Gram diagonal is the yaw
    // pair's defect.
    assert(exact_dot(b.0, b.0) == ycv * ycv + ysv * ysv) by (nonlinear_arith)
        requires
            b.0.x == ycv,
            b.0.y == 0,
            b.0.z == -ysv,
    ;
    assert(-e2 <= exact_dot(b.0, b.0) - oo2 <= e2);
    // Off-diagonals with the first column: the exact parts cancel and
    // only the roundings remain.
    let g01 = exact_dot(b.0, b.1);
    assert(g01 == ycv * jx + (-ysv) * jz);
    assert(oo * (ycv * jx) == ycv * aa - ycv * rjx) by (nonlinear_arith)
        requires
            oo * jx == aa - rjx,
    ;
    assert(oo * (ysv * jz) == ysv * bb - ysv * rjz) by (nonlinear_arith)
        requires
            oo * jz == bb - rjz,
    ;
    assert(ycv * aa == ysv * bb) by (nonlinear_arith)
        requires
            aa == ysv * nps,
            bb == ycv * nps,
    ;
    assert(oo * g01 == -(ycv * rjx) + ysv * rjz) by (nonlinear_arith)
        requires
            g01 == ycv * jx + (-ysv) * jz,
            oo * (ycv * jx) == ycv * aa - ycv * rjx,
            oo * (ysv * jz) == ysv * bb - ysv * rjz,
            ycv * aa == ysv * bb,
    ;
    crate::fx::lemma_mul_bound2(ycv, rjx, oo, oo);
    crate::fx::lemma_mul_bound2(ysv, rjz, oo, oo);
    assert(-(2 * oo2) <= oo * g01 <= 2 * oo2);
    assert(-(2 * oo) <= g01 <= 2 * oo) by (nonlinear_arith)
        requires
            oo > 0,
            oo2 == oo * oo,
            -(2 * oo2) <= oo * g01 <= 2 * oo2,
    ;
    let g02 = exact_dot(b.0, b.2);
    assert(g02 == ycv * kx + (-ysv) * kz);
    assert(oo * (ycv * kx) == ycv * a2 - ycv * rkx) by (nonlinear_arith)
        requires
            oo * kx == a2 - rkx,
    ;
    assert(oo * (ysv * kz) == ysv * b2 - ysv * rkz) by (nonlinear_arith)
        requires
            oo * kz == b2 - rkz,
    ;
    assert(ycv * a2 == ysv * b2) by (nonlinear_arith)
        requires
            a2 == ysv * pcv,
            b2 == ycv * pcv,
    ;
    assert(oo * g02 == -(ycv * rkx) + ysv * rkz) by (nonlinear_arith)
        requires
            g02 == ycv * kx + (-ysv) * kz,
            oo * (ycv * kx) == ycv * a2 - ycv * rkx,
            oo * (ysv * kz) == ysv * b2 - ysv * rkz,
            ycv * a2 == ysv * b2,
    ;
    crate::fx::lemma_mul_bound2(ycv, rkx, oo, oo);
    crate::fx::lemma_mul_bound2(ysv, rkz, oo, oo);
    assert(-(2 * oo) <= g02 <= 2 * oo) by (nonlinear_arith)
        requires
            oo > 0,
            oo2 == oo * oo,
            -(2 * oo2) <= oo * g02 <= 2 * oo2,
    ;
    // The second column's diagonal: expand the two rounded squares.
    let g11 = exact_dot(b.1, b.1);
    assert(g11 == jx * jx + pcv * pcv + jz * jz);
    assert(oo2 * (jx * jx) == (aa - rjx) * (aa - rjx)) by (nonlinear_arith)
        requires
            oo * jx == aa - rjx,
            oo2 == oo * oo,
    ;
    assert(oo2 * (jz * jz) == (bb - rjz) * (bb - rjz)) by (nonlinear_arith)
        requires
            oo * jz == bb - rjz,
            oo2 == oo * oo,
    ;
    assert((aa - rjx) * (aa - rjx) == aa * aa - 2 * (aa * rjx) + rjx * rjx) by (nonlinear_arith);
    assert((bb - rjz) * (bb - rjz) == bb * bb - 2 * (bb * rjz) + rjz * rjz) by (nonlinear_arith);
    assert(aa * aa + bb * bb == (nps * nps) * (ysv * ysv + ycv * ycv)) by (nonlinear_arith)
        requires
            aa == ysv * nps,
            bb == ycv * nps,
    ;
    assert((nps * nps) * (ysv * ysv + ycv * ycv) == (nps * nps) * oo2 + (nps * nps) * dy)
        by (nonlinear_arith)
        requires
            ysv * ysv + ycv * ycv == oo2 + dy,
    ;
    assert(nps * nps == psv * psv) by (nonlinear_arith)
        requires
            nps == -psv,
    ;
    assert(oo2 * g11 == oo2 * (jx * jx) + oo2 * (pcv * pcv) + oo2 * (jz * jz)) by (nonlinear_arith)
        requires
            g11 == jx * jx + pcv * pcv + jz * jz,
    ;
    assert(oo2 * (psv * psv) + oo2 * (pcv * pcv) == oo2 * oo2 + oo2 * dp) by (nonlinear_arith)
        requires
            psv * psv + pcv * pcv == oo2 + dp,
    ;
    assert(oo2 * (g11 - oo2) == oo2 * dp + (psv * psv) * dy - 2 * (aa * rjx) - 2 * (bb * rjz) + rjx
        * rjx + rjz * rjz) by (nonlinear_arith)
        requires
            oo2 * g11 == oo2 * (jx * jx) + oo2 * (pcv * pcv) + oo2 * (jz * jz),
            oo2 * (jx * jx) == aa * aa - 2 * (aa * rjx) + rjx * rjx,
            oo2 * (jz * jz) == bb * bb - 2 * (bb * rjz) + rjz * rjz,
            aa * aa + bb * bb == (psv * psv) * oo2 + (psv * psv) * dy,
            oo2 * (psv * psv) + oo2 * (pcv * pcv) == oo2 * oo2 + oo2 * dp,
    ;
    crate::fx::lemma_mul_bound2(oo2, dp, oo2, e1);
    crate::fx::lemma_mul_bound_abs(psv, psv, oo);
    crate::fx::lemma_mul_bound2(psv * psv, dy, oo2, e2);
    crate::fx::lemma_mul_bound2(aa, rjx, oo2, oo);
    crate::fx::lemma_mul_bound2(bb, rjz, oo2, oo);
    crate::fx::lemma_mul_bound_abs(rjx, rjx, oo);
    crate::fx::lemma_mul_bound_abs(rjz, rjz, oo);
    assert(-(oo2 * eta) <= oo2 * (g11 - oo2) <= oo2 * eta) by (nonlinear_arith)
        requires
            oo2 * (g11 - oo2) == oo2 * dp + (psv * psv) * dy - 2 * (aa * rjx) - 2 * (bb * rjz)
                + rjx * rjx + rjz * rjz,
            -(oo2 * e1) <= oo2 * dp <= oo2 * e1,
            -(oo2 * e2) <= (psv * psv) * dy <= oo2 * e2,
            -(oo2 * oo) <= aa * rjx <= oo2 * oo,
            -(oo2 * oo) <= bb * rjz <= oo2 * oo,
            0 <= rjx * rjx <= oo * oo,
            0 <= rjz * rjz <= oo * oo,
            eta == e1 + e2 + 6 * oo,
            oo2 == oo * oo,
            oo >= 2,
    ;
    assert(-eta <= g11 - oo2 <= eta) by (nonlinear_arith)
        requires
            oo2 > 0,
            -(oo2 * eta) <= oo2 * (g11 - oo2) <= oo2 * eta,
    ;
    // The third column's diagonal mirrors it with the cosine.
    let g22 = exact_dot(b.2, b.2);
    assert(g22 == kx * kx + psv * psv + kz * kz);
    assert(oo2 * (kx * kx) == (a2 - rkx) * (a2 - rkx)) by (nonlinear_arith)
        requires
            oo * kx == a2 - rkx,
            oo2 == oo * oo,
    ;
    assert(oo2 * (kz * kz) == (b2 - rkz) * (b2 - rkz)) by (nonlinear_arith)
        requires
            oo * kz == b2 - rkz,
            oo2 == oo * oo,
    ;
    assert((a2 - rkx) * (a2 - rkx) == a2 * a2 - 2 * (a2 * rkx) + rkx * rkx) by (nonlinear_arith);
    assert((b2 - rkz) * (b2 - rkz) == b2 * b2 - 2 * (b2 * rkz) + rkz * rkz) by (nonlinear_arith);
    assert(a2 * a2 + b2 * b2 == (pcv * pcv) * (ysv * ysv + ycv * ycv)) by (nonlinear_arith)
        requires
            a2 == ysv * pcv,
            b2 == ycv * pcv,
    ;
    assert((pcv * pcv) * (ysv * ysv + ycv * ycv) == (pcv * pcv) * oo2 + (pcv * pcv) * dy)
        by (nonlinear_arith)
        requires
            ysv * ysv + ycv * ycv == oo2 + dy,
    ;
    assert(oo2 * g22 == oo2 * (kx * kx) + oo2 * (psv * psv) + oo2 * (kz * kz)) by (nonlinear_arith)
        requires
            g22 == kx * kx + psv * psv + kz * kz,
    ;
    assert(oo2 * (g22 - oo2) == oo2 * dp + (pcv * pcv) * dy - 2 * (a2 * rkx) - 2 * (b2 * rkz) + rkx
        * rkx + rkz * rkz) by (nonlinear_arith)
        requires
            oo2 * g22 == oo2 * (kx * kx) + oo2 * (psv * psv) + oo2 * (kz * kz),
            oo2 * (kx * kx) == a2 * a2 - 2 * (a2 * rkx) + rkx * rkx,
            oo2 * (kz * kz) == b2 * b2 - 2 * (b2 * rkz) + rkz * rkz,
            a2 * a2 + b2 * b2 == (pcv * pcv) * oo2 + (pcv * pcv) * dy,
            oo2 * (psv * psv) + oo2 * (pcv * pcv) == oo2 * oo2 + oo2 * dp,
    ;
    crate::fx::lemma_mul_bound_abs(pcv, pcv, oo);
    crate::fx::lemma_mul_bound2(pcv * pcv, dy, oo2, e2);
    crate::fx::lemma_mul_bound2(a2, rkx, oo2, oo);
    crate::fx::lemma_mul_bound2(b2, rkz, oo2, oo);
    crate::fx::lemma_mul_bound_abs(rkx, rkx, oo);
    crate::fx::lemma_mul_bound_abs(rkz, rkz, oo);
    assert(-(oo2 * eta) <= oo2 * (g22 - oo2) <= oo2 * eta) by (nonlinear_arith)
        requires
            oo2 * (g22 - oo2) == oo2 * dp + (pcv * pcv) * dy - 2 * (a2 * rkx) - 2 * (b2 * rkz)
                + rkx * rkx + rkz * rkz,
            -(oo2 * e1) <= oo2 * dp <= oo2 * e1,
            -(oo2 * e2) <= (pcv * pcv) * dy <= oo2 * e2,
            -(oo2 * oo) <= a2 * rkx <= oo2 * oo,
            -(oo2 * oo) <= b2 * rkz <= oo2 * oo,
            0 <= rkx * rkx <= oo * oo,
            0 <= rkz * rkz <= oo * oo,
            eta == e1 + e2 + 6 * oo,
            oo2 == oo * oo,
            oo >= 2,
    ;
    assert(-eta <= g22 - oo2 <= eta) by (nonlinear_arith)
        requires
            oo2 > 0,
            -(oo2 * eta) <= oo2 * (g22 - oo2) <= oo2 * eta,
    ;
    // The remaining off-diagonal: the exact sine/cosine parts cancel
    // against the middle entries.
    let g12 = exact_dot(b.1, b.2);
    assert(g12 == jx * kx + pcv * psv + jz * kz);
    assert(oo2 * (jx * kx) == (aa - rjx) * (a2 - rkx)) by (nonlinear_arith)
        requires
            oo * jx == aa - rjx,
            oo * kx == a2 - rkx,
            oo2 == oo * oo,
    ;
    assert(oo2 * (jz * kz) == (bb - rjz) * (b2 - rkz)) by (nonlinear_arith)
        requires
            oo * jz == bb - rjz,
            oo * kz == b2 - rkz,
            oo2 == oo * oo,
    ;
    assert((aa - rjx) * (a2 - rkx) == aa * a2 - aa * rkx - a2 * rjx + rjx * rkx)
        by (nonlinear_arith);
    assert((bb - rjz) * (b2 - rkz) == bb * b2 - bb * rkz - b2 * rjz + rjz * rkz)
        by (nonlinear_arith);
    assert(aa * a2 + bb * b2 == (nps * pcv) * (ysv * ysv + ycv * ycv)) by (nonlinear_arith)
        requires
            aa == ysv * nps,
            bb == ycv * nps,
            a2 == ysv * pcv,
            b2 == ycv * pcv,
    ;
    assert((nps * pcv) * (ysv * ysv + ycv * ycv) == (nps * pcv) * oo2 + (nps * pcv) * dy)
        by (nonlinear_arith)
        requires
            ysv * ysv + ycv * ycv == oo2 + dy,
    ;
    assert(oo2 * g12 == oo2 * (jx * kx) + oo2 * (pcv * psv) + oo2 * (jz * kz)) by (nonlinear_arith)
        requires
            g12 == jx * kx + pcv * psv + jz * kz,
    ;
    assert((nps * pcv) * oo2 + oo2 * (pcv * psv) == 0) by (nonlinear_arith)
        requires
            nps == -psv,
    ;
    assert(oo2 * g12 == (nps * pcv) * dy - aa * rkx - a2 * rjx + rjx * rkx - bb * rkz - b2 * rjz
        + rjz * rkz) by (nonlinear_arith)
        requires
            oo2 * g12 == oo2 * (jx * kx) + oo2 * (pcv * psv) + oo2 * (jz * kz),
            oo2 * (jx * kx) == aa * a2 - aa * rkx - a2 * rjx + rjx * rkx,
            oo2 * (jz * kz) == bb * b2 - bb * rkz - b2 * rjz + rjz * rkz,
            aa * a2 + bb * b2 == (nps * pcv) * oo2 + (nps * pcv) * dy,
            (nps * pcv) * oo2 + oo2 * (pcv * psv) == 0,
    ;
    crate::fx::lemma_mul_bound_abs(nps, pcv, oo);
    crate::fx::lemma_mul_bound2(nps * pcv, dy, oo2, e2);
    crate::fx::lemma_mul_bound2(a2, rjx, oo2, oo);
    crate::fx::lemma_mul_bound2(b2, rjz, oo2, oo);
    crate::fx::lemma_mul_bound2(aa, rkx, oo2, oo);
    crate::fx::lemma_mul_bound2(bb, rkz, oo2, oo);
    crate::fx::lemma_mul_bound2(rjx, rkx, oo, oo);
    crate::fx::lemma_mul_bound2(rjz, rkz, oo, oo);
    assert(-(oo2 * eta) <= oo2 * g12 <= oo2 * eta) by (nonlinear_arith)
        requires
            oo2 * g12 == (nps * pcv) * dy - aa * rkx - a2 * rjx + rjx * rkx - bb * rkz - b2 * rjz
                + rjz * rkz,
            -(oo2 * e2) <= (nps * pcv) * dy <= oo2 * e2,
            -(oo2 * oo) <= aa * rkx <= oo2 * oo,
            -(oo2 * oo) <= a2 * rjx <= oo2 * oo,
            -(oo2 * oo) <= bb * rkz <= oo2 * oo,
            -(oo2 * oo) <= b2 * rjz <= oo2 * oo,
            -(oo * oo) <= rjx * rkx <= oo * oo,
            -(oo * oo) <= rjz * rkz <= oo * oo,
            eta == e1 + e2 + 6 * oo,
            oo2 == oo * oo,
            oo >= 2,
            0 <= e1,
    ;
    assert(-eta <= g12 <= eta) by (nonlinear_arith)
        requires
            oo2 > 0,
            -(oo2 * eta) <= oo2 * g12 <= oo2 * eta,
    ;
    assert(eta >= 2 * oo);
}

/// The transform round trip: for any pose with a near-orthonormal
/// basis and any bounded point, `toLocalPoint(toWorldPoint(p))` agrees
/// with `p` in every coordinate up to `rt_err`; for an exactly
/// orthonormal basis the error is at most five fixed-point units.
pub proof fn lemma_transform_round_trip(t: Transform, p: Vec3, eta: int, m: int)
    requires
        transform_wf(t),
        basis_ortho(t.basis_vectors, eta),
        vec3_bounded(p, m),
        0 <= eta,
        0 <= m <= POINT_MAX,
    ensures
        ({
            let rt = to_local_point_spec(t, to_world_point_spec(t, p));
            &&& -rt_err(m, eta) <= rt.x - p.x <= rt_err(m, eta)
            &&& -rt_err(m, eta) <= rt.y - p.y <= rt_err(m, eta)
            &&& -rt_err(m, eta) <= rt.z - p.z <= rt_err(m, eta)
        }),
{
    let c0 = t.basis_vectors.0;
    let c1 = t.basis_vectors.1;
    let c2 = t.basis_vectors.2;
    crate::transform::lemma_apply_bound(c0, c1, c2, p, m);
    let w = apply_basis(c0, c1, c2, p);
    let q = to_world_point_spec(t, p);
    let rt = to_local_point_spec(t, q);
    assert(q.x == w.x + t.position.x && q.y == w.y + t.position.y && q.z == w.z + t.position.z);
    let shifted = Vec3 {
        x: (q.x - t.position.x) as i64,
        y: (q.y - t.position.y) as i64,
        z: (q.z - t.position.z) as i64,
    };
    assert(shifted == w);
    let oo2 = (ONE as int) * (ONE as int);
    assert(exact_dot(c1, c0) == exact_dot(c0, c1)) by (nonlinear_arith);
    assert(exact_dot(c2, c0) == exact_dot(c0, c2)) by (nonlinear_arith);
    assert(exact_dot(c2, c1) == exact_dot(c1, c2)) by (nonlinear_arith);
    lemma_rt_comp(
        c0,
        c1,
        c2,
        c0,
        p,
        eta,
        m,
        oo2,
        0,
        0,
        p.x as int,
    );
    lemma_rt_comp(
        c0,
        c1,
        c2,
        c1,
        p,
        eta,
        m,
        0,
        oo2,
        0,
        p.y as int,
    );
    lemma_rt_comp(
        c0,
        c1,
        c2,
        c2,
        p,
        eta,
        m,
        0,
        0,
        oo2,
        p.z as int,
    );
    assert(oo2 * (p.x as int) == (p.x as int) * oo2) by (nonlinear_arith);
    assert(oo2 * (p.y as int) == (p.y as int) * oo2) by (nonlinear_arith);
    assert(oo2 * (p.z as int) == (p.z as int) * oo2) by (nonlinear_arith);
    let inv = t.inverse_basis_vectors;
    assert(vec3_bounded(inv.0, ONE as int) && vec3_bounded(inv.1, ONE as int) && vec3_bounded(
        inv.2,
        ONE as int,
    ));
    crate::transform::lemma_apply_bound(inv.0, inv.1, inv.2, w, 3 * m);
    assert(rt.x as int == apply_comp(
        c0.x as int,
        c0.y as int,
        c0.z as int,
        w.x as int,
        w.y as int,
        w.z as int,
    ));
    assert(rt.y as int == apply_comp(
        c1.x as int,
        c1.y as int,
        c1.z as int,
        w.x as int,
        w.y as int,
        w.z as int,
    ));
    assert(rt.z as int == apply_comp(
        c2.x as int,
        c2.y as int,
        c2.z as int,
        w.x as int,
        w.y as int,
        w.z as int,
    ));
}


/// The round trip for a pose built by `set_rotation`: for any yaw and
/// pitch whose fixed-point sine/cosine pairs are near-Pythagorean
/// (squared sums within `e1` and `e2` of `ONE^2`), and any bounded
/// point, `toLocalPoint(toWorldPoint(p))` agrees with `p` in every
/// coordinate within `rt_err(m, e1 + e2 + 6*ONE)`.
pub proof fn lemma_rotation_round_trip(
    t: Transform,
    p: Vec3,
    ps: i64,
    pc: i64,
    ys: i64,
    yc: i64,
    e1: int,
    e2: int,
    m: int,
)
    requires
        transform_wf(t),
        t.basis_vectors == crate::transform::basis_spec(ps as int, pc as int, ys as int, yc as int),
        -ONE <= ps <= ONE,
        -ONE <= pc <= ONE,
        -ONE <= ys <= ONE,
        -ONE <= yc <= ONE,
        0 <= e1,
        0 <= e2,
        -e1 <= ps * ps + pc * pc - (ONE as int) * (ONE as int) <= e1,
        -e2 <= ys * ys + yc * yc - (ONE as int) * (ONE as int) <= e2,
        vec3_bounded(p, m),
        0 <= m <= POINT_MAX,
    ensures
        ({
            let eta = e1 + e2 + 6 * (ONE as int);
            let rt = to_local_point_spec(t, to_world_point_spec(t, p));
            &&& -rt_err(m, eta) <= rt.x - p.x <= rt_err(m, eta)
            &&& -rt_err(m, eta) <= rt.y - p.y <= rt_err(m, eta)
            &&& -rt_err(m, eta) <= rt.z - p.z <= rt_err(m, eta)
        }),
{
    lemma_rotation_basis_ortho(ps, pc, ys, yc, e1, e2);
    lemma_transform_round_trip(t, p, e1 + e2 + 6 * (ONE as int), m);
}

} // verus!

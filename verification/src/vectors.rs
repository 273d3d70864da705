//! Two- and three-component fixed-point vectors.
//!
//! Pure value types: every operation returns a new vector whose
//! components are stated exactly in the contract. Scalar factors are
//! fixed-point numbers at scale `ONE`, so a scalar product divides the
//! wide product back down by `ONE` (flooring). All operations ask for
//! components within `VEC_MAX`, which keeps every intermediate product
//! and the result inside the machine range; the pipeline works far
//! below that bound.

use vstd::prelude::*;
use crate::fx::{div_floor_i128, div_trunc_i128, isqrt_u64, mul_wide, sqrt_floor, tdiv, ONE};

verus! {

/// Largest component magnitude the vector operations accept (2^38).
pub const VEC_MAX: i64 = 0x40_0000_0000;

#[derive(Clone, Copy, PartialEq, Eq, Structural, Debug)]
pub struct Vec2 {
    pub x: i64,
    pub y: i64,
}

#[derive(Clone, Copy, PartialEq, Eq, Structural, Debug)]
pub struct Vec3 {
    pub x: i64,
    pub y: i64,
    pub z: i64,
}

/// Componentwise fixed-point scaling, as a spec-level formula.
pub open spec fn scale_spec(c: int, s: int) -> int {
    (c * s) / (ONE as int)
}

/// The fixed-point cross product: each component is the exact product
/// difference rescaled by `ONE`, rounded toward zero. Truncation
/// (rather than flooring) keeps the operation exactly antisymmetric.
pub open spec fn cross_spec(a: Vec3, b: Vec3) -> Vec3 {
    Vec3 {
        x: tdiv(a.y * b.z - a.z * b.y, ONE as int) as i64,
        y: tdiv(a.z * b.x - a.x * b.z, ONE as int) as i64,
        z: tdiv(a.x * b.y - a.y * b.x, ONE as int) as i64,
    }
}

/// All components of a `Vec2` bounded by `m` in magnitude.
pub open spec fn vec2_bounded(v: Vec2, m: int) -> bool {
    -m <= v.x <= m && -m <= v.y <= m
}

/// All components of a `Vec3` bounded by `m` in magnitude.
pub open spec fn vec3_bounded(v: Vec3, m: int) -> bool {
    -m <= v.x <= m && -m <= v.y <= m && -m <= v.z <= m
}

impl Vec2 {
    pub fn new(x: i64, y: i64) -> (r: Vec2)
        ensures
            r == (Vec2 { x, y }),
    {
        Vec2 { x, y }
    }

    pub fn add(self, other: Vec2) -> (r: Vec2)
        requires
            vec2_bounded(self, VEC_MAX as int),
            vec2_bounded(other, VEC_MAX as int),
        ensures
            r.x == self.x + other.x,
            r.y == self.y + other.y,
    {
        Vec2 { x: self.x + other.x, y: self.y + other.y }
    }

    pub fn sub(self, other: Vec2) -> (r: Vec2)
        requires
            vec2_bounded(self, VEC_MAX as int),
            vec2_bounded(other, VEC_MAX as int),
        ensures
            r.x == self.x - other.x,
            r.y == self.y - other.y,
    {
        Vec2 { x: self.x - other.x, y: self.y - other.y }
    }

    /// Scalar multiplication by a fixed-point factor.
    pub fn scale(self, s: i64) -> (r: Vec2)
        requires
            vec2_bounded(self, VEC_MAX as int),
            -VEC_MAX <= s <= VEC_MAX,
        ensures
            r.x == scale_spec(self.x as int, s as int),
            r.y == scale_spec(self.y as int, s as int),
    {
        proof {
            lemma_scale_bound(self.x as int, s as int);
            lemma_scale_bound(self.y as int, s as int);
        }
        Vec2 {
            x: div_floor_i128(mul_wide(self.x, s), ONE as i128) as i64,
            y: div_floor_i128(mul_wide(self.y, s), ONE as i128) as i64,
        }
    }

    /// Fixed-point dot product: the wide sum of products, scaled back
    /// down by `ONE`.
    pub fn dot(self, other: Vec2) -> (r: i64)
        requires
            vec2_bounded(self, VEC_MAX as int),
            vec2_bounded(other, VEC_MAX as int),
        ensures
            r == (self.x * other.x + self.y * other.y) / (ONE as int),
    {
        proof {
            lemma_prod_bound(self.x as int, other.x as int);
            lemma_prod_bound(self.y as int, other.y as int);
            crate::fx::lemma_div_bound(
                self.x * other.x + self.y * other.y,
                ONE as int,
                2 * ((VEC_MAX as int) * (VEC_MAX as int)),
            );
        }
        let p = mul_wide(self.x, other.x) + mul_wide(self.y, other.y);
        div_floor_i128(p, ONE as i128) as i64
    }
}

impl Vec3 {
    pub fn new(x: i64, y: i64, z: i64) -> (r: Vec3)
        ensures
            r == (Vec3 { x, y, z }),
    {
        Vec3 { x, y, z }
    }

    pub fn add(self, other: Vec3) -> (r: Vec3)
        requires
            vec3_bounded(self, VEC_MAX as int),
            vec3_bounded(other, VEC_MAX as int),
        ensures
            r.x == self.x + other.x,
            r.y == self.y + other.y,
            r.z == self.z + other.z,
    {
        Vec3 { x: self.x + other.x, y: self.y + other.y, z: self.z + other.z }
    }

    pub fn sub(self, other: Vec3) -> (r: Vec3)
        requires
            vec3_bounded(self, VEC_MAX as int),
            vec3_bounded(other, VEC_MAX as int),
        ensures
            r.x == self.x - other.x,
            r.y == self.y - other.y,
            r.z == self.z - other.z,
    {
        Vec3 { x: self.x - other.x, y: self.y - other.y, z: self.z - other.z }
    }

    /// Scalar multiplication by a fixed-point factor.
    pub fn scale(self, s: i64) -> (r: Vec3)
        requires
            vec3_bounded(self, VEC_MAX as int),
            -VEC_MAX <= s <= VEC_MAX,
        ensures
            r.x == scale_spec(self.x as int, s as int),
            r.y == scale_spec(self.y as int, s as int),
            r.z == scale_spec(self.z as int, s as int),
    {
        proof {
            lemma_scale_bound(self.x as int, s as int);
            lemma_scale_bound(self.y as int, s as int);
            lemma_scale_bound(self.z as int, s as int);
        }
        Vec3 {
            x: div_floor_i128(mul_wide(self.x, s), ONE as i128) as i64,
            y: div_floor_i128(mul_wide(self.y, s), ONE as i128) as i64,
            z: div_floor_i128(mul_wide(self.z, s), ONE as i128) as i64,
        }
    }

    /// Fixed-point dot product.
    pub fn dot(self, other: Vec3) -> (r: i64)
        requires
            vec3_bounded(self, VEC_MAX as int),
            vec3_bounded(other, VEC_MAX as int),
        ensures
            r == (self.x * other.x + self.y * other.y + self.z * other.z) / (ONE as int),
    {
        proof {
            lemma_prod_bound(self.x as int, other.x as int);
            lemma_prod_bound(self.y as int, other.y as int);
            lemma_prod_bound(self.z as int, other.z as int);
            crate::fx::lemma_div_bound(
                self.x * other.x + self.y * other.y + self.z * other.z,
                ONE as int,
                3 * ((VEC_MAX as int) * (VEC_MAX as int)),
            );
        }
        let p = mul_wide(self.x, other.x) + mul_wide(self.y, other.y) + mul_wide(
            self.z,
            other.z,
        );
        div_floor_i128(p, ONE as i128) as i64
    }

    /// Scales the vector to length `ONE` (unit length in fixed
    /// point), flooring each component; the zero vector is returned
    /// unchanged. The length is the floor square root of the exact
    /// sum of squares.
    pub fn normalize(self) -> (r: Vec3)
        requires
            vec3_bounded(self, crate::fx::COORD_MAX as int),
        ensures
            ({
                let len = sqrt_floor(self.x * self.x + self.y * self.y + self.z * self.z);
                if len == 0 {
                    r == self
                } else {
                    r.x == (self.x * ONE) / len && r.y == (self.y * ONE) / len && r.z == (self.z
                        * ONE) / len
                }
            }),
    {
        proof {
            crate::fx::lemma_mul_bound_abs(self.x as int, self.x as int, crate::fx::COORD_MAX as int);
            crate::fx::lemma_mul_bound_abs(self.y as int, self.y as int, crate::fx::COORD_MAX as int);
            crate::fx::lemma_mul_bound_abs(self.z as int, self.z as int, crate::fx::COORD_MAX as int);
            assert(self.x * self.x >= 0 && self.y * self.y >= 0 && self.z * self.z >= 0)
                by (nonlinear_arith);
        }
        let sq: i128 = mul_wide(self.x, self.x) + mul_wide(self.y, self.y) + mul_wide(
            self.z,
            self.z,
        );
        let len: u64 = isqrt_u64(sq as u64);
        if len == 0 {
            return self;
        }
        proof {
            crate::fx::lemma_mul_bound2(self.x as int, ONE as int, crate::fx::COORD_MAX as int, ONE as int);
            crate::fx::lemma_mul_bound2(self.y as int, ONE as int, crate::fx::COORD_MAX as int, ONE as int);
            crate::fx::lemma_mul_bound2(self.z as int, ONE as int, crate::fx::COORD_MAX as int, ONE as int);
            crate::fx::lemma_div_bound(
                self.x * ONE,
                len as int,
                (crate::fx::COORD_MAX as int) * (ONE as int),
            );
            crate::fx::lemma_div_bound(
                self.y * ONE,
                len as int,
                (crate::fx::COORD_MAX as int) * (ONE as int),
            );
            crate::fx::lemma_div_bound(
                self.z * ONE,
                len as int,
                (crate::fx::COORD_MAX as int) * (ONE as int),
            );
        }
        Vec3 {
            x: div_floor_i128(mul_wide(self.x, ONE), len as i128) as i64,
            y: div_floor_i128(mul_wide(self.y, ONE), len as i128) as i64,
            z: div_floor_i128(mul_wide(self.z, ONE), len as i128) as i64,
        }
    }

    /// Fixed-point cross product; each component truncates toward
    /// zero, so reversing the operands exactly negates the result
    /// (see `lemma_cross_antisymmetric`).
    pub fn cross(self, other: Vec3) -> (r: Vec3)
        requires
            vec3_bounded(self, VEC_MAX as int),
            vec3_bounded(other, VEC_MAX as int),
        ensures
            r == cross_spec(self, other),
            r.x == tdiv(self.y * other.z - self.z * other.y, ONE as int),
            r.y == tdiv(self.z * other.x - self.x * other.z, ONE as int),
            r.z == tdiv(self.x * other.y - self.y * other.x, ONE as int),
    {
        proof {
            lemma_prod_bound(self.y as int, other.z as int);
            lemma_prod_bound(self.z as int, other.y as int);
            lemma_prod_bound(self.z as int, other.x as int);
            lemma_prod_bound(self.x as int, other.z as int);
            lemma_prod_bound(self.x as int, other.y as int);
            lemma_prod_bound(self.y as int, other.x as int);
            let m = 2 * ((VEC_MAX as int) * (VEC_MAX as int));
            crate::fx::lemma_tdiv_bound(self.y * other.z - self.z * other.y, ONE as int, m);
            crate::fx::lemma_tdiv_bound(self.z * other.x - self.x * other.z, ONE as int, m);
            crate::fx::lemma_tdiv_bound(self.x * other.y - self.y * other.x, ONE as int, m);
        }
        Vec3 {
            x: div_trunc_i128(
                mul_wide(self.y, other.z) - mul_wide(self.z, other.y),
                ONE as i128,
            ) as i64,
            y: div_trunc_i128(
                mul_wide(self.z, other.x) - mul_wide(self.x, other.z),
                ONE as i128,
            ) as i64,
            z: div_trunc_i128(
                mul_wide(self.x, other.y) - mul_wide(self.y, other.x),
                ONE as i128,
            ) as i64,
        }
    }
}

/// The scaled product of two `VEC_MAX`-bounded values fits in an `i64`.
proof fn lemma_scale_bound(c: int, s: int)
    requires
        -(VEC_MAX as int) <= c <= VEC_MAX as int,
        -(VEC_MAX as int) <= s <= VEC_MAX as int,
    ensures
        i64::MIN < (c * s) / (ONE as int) < i64::MAX,
{
    crate::fx::lemma_mul_bound_abs(c, s, VEC_MAX as int);
    crate::fx::lemma_div_bound(c * s, ONE as int, (VEC_MAX as int) * (VEC_MAX as int));
}

/// The product of two `VEC_MAX`-bounded values is bounded by `VEC_MAX^2`.
proof fn lemma_prod_bound(a: int, b: int)
    requires
        -(VEC_MAX as int) <= a <= VEC_MAX as int,
        -(VEC_MAX as int) <= b <= VEC_MAX as int,
    ensures
        -((VEC_MAX as int) * (VEC_MAX as int)) <= a * b <= (VEC_MAX as int) * (VEC_MAX as int),
{
    crate::fx::lemma_mul_bound_abs(a, b, VEC_MAX as int);
}

/// The cross product is perpendicular to both factors up to rounding:
/// its fixed-point dot product with either factor is within
/// `3*m/ONE + 1` of zero for inputs bounded by `m` — one truncation
/// per component, weighted by the factor, plus the dot's own rescale.
pub proof fn lemma_cross_perpendicular(a: Vec3, b: Vec3, m: int)
    requires
        vec3_bounded(a, m),
        vec3_bounded(b, m),
        0 <= m <= VEC_MAX as int,
    ensures
        ({
            let c = cross_spec(a, b);
            let da = (c.x * a.x + c.y * a.y + c.z * a.z) / (ONE as int);
            let db = (c.x * b.x + c.y * b.y + c.z * b.z) / (ONE as int);
            &&& -(3 * m / (ONE as int) + 1) <= da <= 3 * m / (ONE as int) + 1
            &&& -(3 * m / (ONE as int) + 1) <= db <= 3 * m / (ONE as int) + 1
        }),
{
    let oo = ONE as int;
    let ex = a.y * b.z - a.z * b.y;
    let ey = a.z * b.x - a.x * b.z;
    let ez = a.x * b.y - a.y * b.x;
    crate::fx::lemma_mul_bound_abs(a.y as int, b.z as int, VEC_MAX as int);
    crate::fx::lemma_mul_bound_abs(a.z as int, b.y as int, VEC_MAX as int);
    crate::fx::lemma_mul_bound_abs(a.z as int, b.x as int, VEC_MAX as int);
    crate::fx::lemma_mul_bound_abs(a.x as int, b.z as int, VEC_MAX as int);
    crate::fx::lemma_mul_bound_abs(a.x as int, b.y as int, VEC_MAX as int);
    crate::fx::lemma_mul_bound_abs(a.y as int, b.x as int, VEC_MAX as int);
    let mm = 2 * ((VEC_MAX as int) * (VEC_MAX as int));
    crate::fx::lemma_tdiv_bound(ex, oo, mm);
    crate::fx::lemma_tdiv_bound(ey, oo, mm);
    crate::fx::lemma_tdiv_bound(ez, oo, mm);
    let c = cross_spec(a, b);
    let cx = tdiv(ex, oo);
    let cy = tdiv(ey, oo);
    let cz = tdiv(ez, oo);
    assert(c.x == cx && c.y == cy && c.z == cz);
    crate::fx::lemma_tdiv_rem(ex, oo);
    crate::fx::lemma_tdiv_rem(ey, oo);
    crate::fx::lemma_tdiv_rem(ez, oo);
    let rx = ex - oo * cx;
    let ry = ey - oo * cy;
    let rz = ez - oo * cz;
    // The exact triple products vanish.
    lemma_triple_product_zero(a, b);
    lemma_perp_side(a.x as int, a.y as int, a.z as int, ex, ey, ez, cx, cy, cz, rx, ry, rz, m);
    lemma_perp_side(b.x as int, b.y as int, b.z as int, ex, ey, ez, cx, cy, cz, rx, ry, rz, m);
}

/// The exact cross-product numerators are orthogonal to both factors.
proof fn lemma_triple_product_zero(a: Vec3, b: Vec3)
    ensures
        a.x * (a.y * b.z - a.z * b.y) + a.y * (a.z * b.x - a.x * b.z) + a.z * (a.x * b.y - a.y
            * b.x) == 0,
        b.x * (a.y * b.z - a.z * b.y) + b.y * (a.z * b.x - a.x * b.z) + b.z * (a.x * b.y - a.y
            * b.x) == 0,
{
    let ax = a.x as int;
    let ay = a.y as int;
    let az = a.z as int;
    let bx = b.x as int;
    let by = b.y as int;
    let bz = b.z as int;
    assert(ax * (ay * bz - az * by) == ax * (ay * bz) - ax * (az * by)) by (nonlinear_arith);
    assert(ay * (az * bx - ax * bz) == ay * (az * bx) - ay * (ax * bz)) by (nonlinear_arith);
    assert(az * (ax * by - ay * bx) == az * (ax * by) - az * (ay * bx)) by (nonlinear_arith);
    assert(ax * (ay * bz) == ay * (ax * bz)) by (nonlinear_arith);
    assert(ay * (az * bx) == az * (ay * bx)) by (nonlinear_arith);
    assert(az * (ax * by) == ax * (az * by)) by (nonlinear_arith);
    assert(bx * (ay * bz - az * by) == bx * (ay * bz) - bx * (az * by)) by (nonlinear_arith);
    assert(by * (az * bx - ax * bz) == by * (az * bx) - by * (ax * bz)) by (nonlinear_arith);
    assert(bz * (ax * by - ay * bx) == bz * (ax * by) - bz * (ay * bx)) by (nonlinear_arith);
    assert(bx * (ay * bz) == bz * (ay * bx)) by (nonlinear_arith);
    assert(by * (az * bx) == bx * (az * by)) by (nonlinear_arith);
    assert(bz * (ax * by) == by * (ax * bz)) by (nonlinear_arith);
}

/// One side of the perpendicularity bound: a factor `(vx, vy, vz)`
/// whose exact dot with the cross numerators vanishes stays within
/// the rounding budget after the two rescales.
proof fn lemma_perp_side(
    vx: int,
    vy: int,
    vz: int,
    ex: int,
    ey: int,
    ez: int,
    cx: int,
    cy: int,
    cz: int,
    rx: int,
    ry: int,
    rz: int,
    m: int,
)
    requires
        -m <= vx <= m,
        -m <= vy <= m,
        -m <= vz <= m,
        0 <= m,
        vx * ex + vy * ey + vz * ez == 0,
        ex == (ONE as int) * cx + rx,
        ey == (ONE as int) * cy + ry,
        ez == (ONE as int) * cz + rz,
        -(ONE as int) < rx < ONE as int,
        -(ONE as int) < ry < ONE as int,
        -(ONE as int) < rz < ONE as int,
    ensures
        -(3 * m / (ONE as int) + 1) <= (cx * vx + cy * vy + cz * vz) / (ONE as int) <= 3 * m / (
        ONE as int) + 1,
{
    let oo = ONE as int;
    assert(vx * ex == oo * (vx * cx) + vx * rx) by (nonlinear_arith)
        requires
            ex == oo * cx + rx,
    ;
    assert(vy * ey == oo * (vy * cy) + vy * ry) by (nonlinear_arith)
        requires
            ey == oo * cy + ry,
    ;
    assert(vz * ez == oo * (vz * cz) + vz * rz) by (nonlinear_arith)
        requires
            ez == oo * cz + rz,
    ;
    let ss = cx * vx + cy * vy + cz * vz;
    assert(oo * ss == -(vx * rx + vy * ry + vz * rz)) by (nonlinear_arith)
        requires
            vx * ex + vy * ey + vz * ez == 0,
            vx * ex == oo * (vx * cx) + vx * rx,
            vy * ey == oo * (vy * cy) + vy * ry,
            vz * ez == oo * (vz * cz) + vz * rz,
            ss == cx * vx + cy * vy + cz * vz,
    ;
    crate::fx::lemma_mul_bound2(vx, rx, m, oo);
    crate::fx::lemma_mul_bound2(vy, ry, m, oo);
    crate::fx::lemma_mul_bound2(vz, rz, m, oo);
    assert(-(3 * (m * oo)) <= oo * ss <= 3 * (m * oo));
    assert(-(3 * m) <= ss <= 3 * m) by (nonlinear_arith)
        requires
            oo > 0,
            -(3 * (m * oo)) <= oo * ss <= 3 * (m * oo),
    ;
    vstd::arithmetic::div_mod::lemma_div_is_ordered(ss, 3 * m, oo);
    vstd::arithmetic::div_mod::lemma_div_is_ordered(-(3 * m), ss, oo);
    assert((-(3 * m)) / oo >= -(3 * m / oo) - 1) by (nonlinear_arith)
        requires
            oo > 0,
            m >= 0,
    ;
    vstd::arithmetic::div_mod::lemma_div_pos_is_pos(3 * m, oo);
}

/// The cross product is exactly antisymmetric: reversing the operands
/// negates every component.
pub proof fn lemma_cross_antisymmetric(a: Vec3, b: Vec3)
    requires
        vec3_bounded(a, VEC_MAX as int),
        vec3_bounded(b, VEC_MAX as int),
    ensures
        cross_spec(b, a).x == -cross_spec(a, b).x,
        cross_spec(b, a).y == -cross_spec(a, b).y,
        cross_spec(b, a).z == -cross_spec(a, b).z,
{
    let oo = ONE as int;
    let nx = a.y * b.z - a.z * b.y;
    let ny = a.z * b.x - a.x * b.z;
    let nz = a.x * b.y - a.y * b.x;
    assert(b.y * a.z - b.z * a.y == -nx) by (nonlinear_arith)
        requires
            nx == a.y * b.z - a.z * b.y,
    ;
    assert(b.z * a.x - b.x * a.z == -ny) by (nonlinear_arith)
        requires
            ny == a.z * b.x - a.x * b.z,
    ;
    assert(b.x * a.y - b.y * a.x == -nz) by (nonlinear_arith)
        requires
            nz == a.x * b.y - a.y * b.x,
    ;
    crate::fx::lemma_tdiv_neg(nx, oo);
    crate::fx::lemma_tdiv_neg(ny, oo);
    crate::fx::lemma_tdiv_neg(nz, oo);
    lemma_prod_bound(a.y as int, b.z as int);
    lemma_prod_bound(a.z as int, b.y as int);
    lemma_prod_bound(a.z as int, b.x as int);
    lemma_prod_bound(a.x as int, b.z as int);
    lemma_prod_bound(a.x as int, b.y as int);
    lemma_prod_bound(a.y as int, b.x as int);
    let m = 2 * ((VEC_MAX as int) * (VEC_MAX as int));
    crate::fx::lemma_tdiv_bound(nx, oo, m);
    crate::fx::lemma_tdiv_bound(ny, oo, m);
    crate::fx::lemma_tdiv_bound(nz, oo, m);
    crate::fx::lemma_tdiv_bound(-nx, oo, m);
    crate::fx::lemma_tdiv_bound(-ny, oo, m);
    crate::fx::lemma_tdiv_bound(-nz, oo, m);
}

} // verus!

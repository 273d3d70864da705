//! Orientation and position of a model or camera.
//!
//! A transform carries a position and an orthonormal basis (right, up,
//! forward) built from a yaw rotation followed by a pitch rotation.
//! The caller supplies the sine and cosine of the two angles as
//! fixed-point values; the basis is composed from them with one
//! rounding per product. The inverse basis is the transpose, valid
//! because the basis is a pure rotation.

use vstd::prelude::*;
use crate::fx::{div_floor_i128, mul_wide, COORD_MAX, ONE};
use crate::vectors::{scale_spec, vec3_bounded, Vec3};

verus! {

/// Largest input coordinate `transform_vector` accepts (2^36).
pub const TRANS_MAX: i64 = 0x10_0000_0000;

/// Largest point coordinate the point conversions accept (2^35):
/// leaves room for the position offset before the basis is applied.
pub const POINT_MAX: i64 = 0x8_0000_0000;

#[derive(Clone, Copy, Debug)]
pub struct Transform {
    pub position: Vec3,
    pub basis_vectors: (Vec3, Vec3, Vec3),
    pub inverse_basis_vectors: (Vec3, Vec3, Vec3),
}

/// One component of a basis application: the fixed-point combination
/// `(a*x + b*y + c*z) / ONE`.
pub open spec fn apply_comp(a: int, b: int, c: int, x: int, y: int, z: int) -> int {
    (a * x + b * y + c * z) / (ONE as int)
}

/// A vector carried through a basis given by its three column vectors:
/// `ihat*v.x + jhat*v.y + khat*v.z` in fixed point.
pub open spec fn apply_basis(ihat: Vec3, jhat: Vec3, khat: Vec3, v: Vec3) -> Vec3 {
    Vec3 {
        x: apply_comp(
            ihat.x as int,
            jhat.x as int,
            khat.x as int,
            v.x as int,
            v.y as int,
            v.z as int,
        ) as i64,
        y: apply_comp(
            ihat.y as int,
            jhat.y as int,
            khat.y as int,
            v.x as int,
            v.y as int,
            v.z as int,
        ) as i64,
        z: apply_comp(
            ihat.z as int,
            jhat.z as int,
            khat.z as int,
            v.x as int,
            v.y as int,
            v.z as int,
        ) as i64,
    }
}

/// The transpose of a basis given as three column vectors.
pub open spec fn transpose_spec(b: (Vec3, Vec3, Vec3)) -> (Vec3, Vec3, Vec3) {
    (
        Vec3 { x: b.0.x, y: b.1.x, z: b.2.x },
        Vec3 { x: b.0.y, y: b.1.y, z: b.2.y },
        Vec3 { x: b.0.z, y: b.1.z, z: b.2.z },
    )
}

/// The basis composed from a yaw rotation about the vertical axis
/// followed by a pitch rotation about the yawed horizontal axis.
/// Inputs are the fixed-point sine/cosine of the two angles.
pub open spec fn basis_spec(ps: int, pc: int, ys: int, yc: int) -> (Vec3, Vec3, Vec3) {
    (
        Vec3 { x: yc as i64, y: 0, z: (-ys) as i64 },
        Vec3 {
            x: scale_spec(ys, -ps) as i64,
            y: pc as i64,
            z: scale_spec(yc, -ps) as i64,
        },
        Vec3 {
            x: scale_spec(ys, pc) as i64,
            y: ps as i64,
            z: scale_spec(yc, pc) as i64,
        },
    )
}

/// All three basis vectors bounded by `m`.
pub open spec fn basis_bounded(b: (Vec3, Vec3, Vec3), m: int) -> bool {
    vec3_bounded(b.0, m) && vec3_bounded(b.1, m) && vec3_bounded(b.2, m)
}

/// A well-formed transform: unit-scale basis, inverse basis equal to
/// the transpose, position within the world bound.
pub open spec fn transform_wf(t: Transform) -> bool {
    basis_bounded(t.basis_vectors, ONE as int) && t.inverse_basis_vectors == transpose_spec(
        t.basis_vectors,
    ) && vec3_bounded(t.position, COORD_MAX as int)
}

/// Fixed-point product of two values bounded by `ONE`.
fn scale_one(a: i64, b: i64) -> (r: i64)
    requires
        -ONE <= a <= ONE,
        -ONE <= b <= ONE,
    ensures
        r == scale_spec(a as int, b as int),
        -ONE <= r <= ONE,
{
    proof {
        crate::fx::lemma_mul_bound_abs(a as int, b as int, ONE as int);
        crate::fx::lemma_div_bound(a as int * b as int, ONE as int, ONE as int * ONE as int);
        assert((ONE as int * ONE as int) / (ONE as int) == ONE as int) by (nonlinear_arith);
        vstd::arithmetic::div_mod::lemma_div_is_ordered(
            a as int * b as int,
            ONE as int * ONE as int,
            ONE as int,
        );
        vstd::arithmetic::div_mod::lemma_div_is_ordered(
            -(ONE as int * ONE as int),
            a as int * b as int,
            ONE as int,
        );
        assert((-(ONE as int * ONE as int)) / (ONE as int) == -(ONE as int)) by (nonlinear_arith);
    }
    div_floor_i128(mul_wide(a, b), ONE as i128) as i64
}

/// Carries `v` through the basis `(ihat, jhat, khat)`.
pub fn transform_vector(ihat: Vec3, jhat: Vec3, khat: Vec3, v: Vec3) -> (r: Vec3)
    requires
        vec3_bounded(ihat, ONE as int),
        vec3_bounded(jhat, ONE as int),
        vec3_bounded(khat, ONE as int),
        vec3_bounded(v, TRANS_MAX as int),
    ensures
        r == apply_basis(ihat, jhat, khat, v),
        vec3_bounded(r, 3 * (TRANS_MAX as int)),
{
    proof {
        lemma_apply_bound(ihat, jhat, khat, v, TRANS_MAX as int);
        crate::fx::lemma_mul_bound2(ihat.x as int, v.x as int, ONE as int, TRANS_MAX as int);
        crate::fx::lemma_mul_bound2(jhat.x as int, v.y as int, ONE as int, TRANS_MAX as int);
        crate::fx::lemma_mul_bound2(khat.x as int, v.z as int, ONE as int, TRANS_MAX as int);
        crate::fx::lemma_mul_bound2(ihat.y as int, v.x as int, ONE as int, TRANS_MAX as int);
        crate::fx::lemma_mul_bound2(jhat.y as int, v.y as int, ONE as int, TRANS_MAX as int);
        crate::fx::lemma_mul_bound2(khat.y as int, v.z as int, ONE as int, TRANS_MAX as int);
        crate::fx::lemma_mul_bound2(ihat.z as int, v.x as int, ONE as int, TRANS_MAX as int);
        crate::fx::lemma_mul_bound2(jhat.z as int, v.y as int, ONE as int, TRANS_MAX as int);
        crate::fx::lemma_mul_bound2(khat.z as int, v.z as int, ONE as int, TRANS_MAX as int);
    }
    let x = div_floor_i128(
        mul_wide(ihat.x, v.x) + mul_wide(jhat.x, v.y) + mul_wide(khat.x, v.z),
        ONE as i128,
    ) as i64;
    let y = div_floor_i128(
        mul_wide(ihat.y, v.x) + mul_wide(jhat.y, v.y) + mul_wide(khat.y, v.z),
        ONE as i128,
    ) as i64;
    let z = div_floor_i128(
        mul_wide(ihat.z, v.x) + mul_wide(jhat.z, v.y) + mul_wide(khat.z, v.z),
        ONE as i128,
    ) as i64;
    Vec3 { x, y, z }
}

/// A basis application scales the input bound by at most 3.
pub proof fn lemma_apply_bound(ihat: Vec3, jhat: Vec3, khat: Vec3, v: Vec3, m: int)
    requires
        vec3_bounded(ihat, ONE as int),
        vec3_bounded(jhat, ONE as int),
        vec3_bounded(khat, ONE as int),
        vec3_bounded(v, m),
        m >= 0,
    ensures
        vec3_bounded(apply_basis(ihat, jhat, khat, v), 3 * m),
        -(3 * m) <= apply_comp(
            ihat.x as int,
            jhat.x as int,
            khat.x as int,
            v.x as int,
            v.y as int,
            v.z as int,
        ) <= 3 * m,
        -(3 * m) <= apply_comp(
            ihat.y as int,
            jhat.y as int,
            khat.y as int,
            v.x as int,
            v.y as int,
            v.z as int,
        ) <= 3 * m,
        -(3 * m) <= apply_comp(
            ihat.z as int,
            jhat.z as int,
            khat.z as int,
            v.x as int,
            v.y as int,
            v.z as int,
        ) <= 3 * m,
{
    lemma_apply_comp_bound(ihat.x as int, jhat.x as int, khat.x as int, v, m);
    lemma_apply_comp_bound(ihat.y as int, jhat.y as int, khat.y as int, v, m);
    lemma_apply_comp_bound(ihat.z as int, jhat.z as int, khat.z as int, v, m);
}

proof fn lemma_apply_comp_bound(a: int, b: int, c: int, v: Vec3, m: int)
    requires
        -(ONE as int) <= a <= ONE as int,
        -(ONE as int) <= b <= ONE as int,
        -(ONE as int) <= c <= ONE as int,
        vec3_bounded(v, m),
        m >= 0,
    ensures
        -(3 * m) <= apply_comp(a, b, c, v.x as int, v.y as int, v.z as int) <= 3 * m,
{
    crate::fx::lemma_mul_bound2(a, v.x as int, ONE as int, m);
    crate::fx::lemma_mul_bound2(b, v.y as int, ONE as int, m);
    crate::fx::lemma_mul_bound2(c, v.z as int, ONE as int, m);
    let s = a * v.x + b * v.y + c * v.z;
    assert(-(3 * ((ONE as int) * m)) <= s <= 3 * ((ONE as int) * m));
    crate::fx::lemma_div_bound(s, ONE as int, 3 * ((ONE as int) * m));
    assert((3 * ((ONE as int) * m)) / (ONE as int) == 3 * m) by (nonlinear_arith);
    vstd::arithmetic::div_mod::lemma_div_is_ordered(s, 3 * ((ONE as int) * m), ONE as int);
    vstd::arithmetic::div_mod::lemma_div_is_ordered(-(3 * ((ONE as int) * m)), s, ONE as int);
    assert((-(3 * ((ONE as int) * m))) / (ONE as int) == -(3 * m)) by (nonlinear_arith);
}

impl Transform {
    /// The identity transform: no rotation, at the origin.
    pub fn new() -> (r: Transform)
        ensures
            r == identity_spec(),
            transform_wf(r),
    {
        Transform {
            position: Vec3 { x: 0, y: 0, z: 0 },
            basis_vectors: (
                Vec3 { x: ONE, y: 0, z: 0 },
                Vec3 { x: 0, y: ONE, z: 0 },
                Vec3 { x: 0, y: 0, z: ONE },
            ),
            inverse_basis_vectors: (
                Vec3 { x: ONE, y: 0, z: 0 },
                Vec3 { x: 0, y: ONE, z: 0 },
                Vec3 { x: 0, y: 0, z: ONE },
            ),
        }
    }

    /// Rebuilds the cached basis and inverse basis for the given
    /// orientation; `(ps, pc)` and `(ys, yc)` are the fixed-point
    /// sine/cosine of pitch and yaw.
    pub fn set_rotation(&mut self, ps: i64, pc: i64, ys: i64, yc: i64)
        requires
            -ONE <= ps <= ONE,
            -ONE <= pc <= ONE,
            -ONE <= ys <= ONE,
            -ONE <= yc <= ONE,
        ensures
            final(self).position == old(self).position,
            final(self).basis_vectors == basis_spec(ps as int, pc as int, ys as int, yc as int),
            final(self).inverse_basis_vectors == transpose_spec(final(self).basis_vectors),
            vec3_bounded(old(self).position, COORD_MAX as int) ==> transform_wf(*final(self)),
    {
        let neg_ps: i64 = -ps;
        let ihat = Vec3 { x: yc, y: 0, z: -ys };
        let jhat = Vec3 { x: scale_one(ys, neg_ps), y: pc, z: scale_one(yc, neg_ps) };
        let khat = Vec3 { x: scale_one(ys, pc), y: ps, z: scale_one(yc, pc) };
        self.basis_vectors = (ihat, jhat, khat);
        self.inverse_basis_vectors = (
            Vec3 { x: ihat.x, y: jhat.x, z: khat.x },
            Vec3 { x: ihat.y, y: jhat.y, z: khat.y },
            Vec3 { x: ihat.z, y: jhat.z, z: khat.z },
        );
    }

    /// Takes a point from local space to world space.
    pub fn to_world_point(&self, point: Vec3) -> (r: Vec3)
        requires
            transform_wf(*self),
            vec3_bounded(point, POINT_MAX as int),
        ensures
            r == to_world_point_spec(*self, point),
    {
        let (ihat, jhat, khat) = self.basis_vectors;
        let rotated = transform_vector(ihat, jhat, khat, point);
        Vec3 {
            x: rotated.x + self.position.x,
            y: rotated.y + self.position.y,
            z: rotated.z + self.position.z,
        }
    }

    /// Takes a point from world space to local space.
    pub fn to_local_point(&self, world_point: Vec3) -> (r: Vec3)
        requires
            transform_wf(*self),
            vec3_bounded(world_point, POINT_MAX as int),
        ensures
            r == to_local_point_spec(*self, world_point),
    {
        let (ihat, jhat, khat) = self.inverse_basis_vectors;
        let shifted = Vec3 {
            x: world_point.x - self.position.x,
            y: world_point.y - self.position.y,
            z: world_point.z - self.position.z,
        };
        transform_vector(ihat, jhat, khat, shifted)
    }

    /// Takes a direction vector from local space to world space.
    pub fn to_world_vector(&self, local_vector: Vec3) -> (r: Vec3)
        requires
            transform_wf(*self),
            vec3_bounded(local_vector, TRANS_MAX as int),
        ensures
            r == apply_basis(
                self.basis_vectors.0,
                self.basis_vectors.1,
                self.basis_vectors.2,
                local_vector,
            ),
            vec3_bounded(r, 3 * (TRANS_MAX as int)),
    {
        let (ihat, jhat, khat) = self.basis_vectors;
        transform_vector(ihat, jhat, khat, local_vector)
    }

    /// Takes a direction vector from world space to local space.
    pub fn to_local_vector(&self, world_vector: Vec3) -> (r: Vec3)
        requires
            transform_wf(*self),
            vec3_bounded(world_vector, TRANS_MAX as int),
        ensures
            r == apply_basis(
                self.inverse_basis_vectors.0,
                self.inverse_basis_vectors.1,
                self.inverse_basis_vectors.2,
                world_vector,
            ),
            vec3_bounded(r, 3 * (TRANS_MAX as int)),
    {
        let (ihat, jhat, khat) = self.inverse_basis_vectors;
        transform_vector(ihat, jhat, khat, world_vector)
    }
}

/// The identity transform as a value.
pub open spec fn identity_spec() -> Transform {
    Transform {
        position: Vec3 { x: 0, y: 0, z: 0 },
        basis_vectors: (
            Vec3 { x: ONE, y: 0, z: 0 },
            Vec3 { x: 0, y: ONE, z: 0 },
            Vec3 { x: 0, y: 0, z: ONE },
        ),
        inverse_basis_vectors: (
            Vec3 { x: ONE, y: 0, z: 0 },
            Vec3 { x: 0, y: ONE, z: 0 },
            Vec3 { x: 0, y: 0, z: ONE },
        ),
    }
}

/// `to_world_point` as a spec-level value: basis application plus the
/// position offset.
pub open spec fn to_world_point_spec(t: Transform, p: Vec3) -> Vec3 {
    let rotated = apply_basis(t.basis_vectors.0, t.basis_vectors.1, t.basis_vectors.2, p);
    Vec3 {
        x: (rotated.x + t.position.x) as i64,
        y: (rotated.y + t.position.y) as i64,
        z: (rotated.z + t.position.z) as i64,
    }
}

/// `to_local_point` as a spec-level value: the position removed, then
/// the transposed basis applied.
pub open spec fn to_local_point_spec(t: Transform, q: Vec3) -> Vec3 {
    let shifted = Vec3 {
        x: (q.x - t.position.x) as i64,
        y: (q.y - t.position.y) as i64,
        z: (q.z - t.position.z) as i64,
    };
    apply_basis(
        t.inverse_basis_vectors.0,
        t.inverse_basis_vectors.1,
        t.inverse_basis_vectors.2,
        shifted,
    )
}

} // verus!

//! Fixed-point scalar arithmetic.
//!
//! All geometric quantities in this crate are signed fixed-point numbers:
//! an `i64` holding `value * ONE`, with `ONE = 2^16`. Screen-space
//! positions use a finer pixel subdivision, `SUB = 2^8` sub-units per
//! pixel. Division rounds toward negative infinity (floor), which is
//! exactly the `/` of mathematical integers when the divisor is
//! positive, so contracts can speak of `/` directly; the one
//! exception is the cross product's truncating rescale (`tdiv`),
//! whose symmetry under negation keeps that operation exactly
//! antisymmetric.

use vstd::prelude::*;

verus! {

/// Fixed-point scale: this many units represent 1.0 in world space.
pub const ONE: i64 = 65536;

/// Sub-pixel scale for screen-space coordinates.
pub const SUB: i64 = 256;

/// Largest magnitude allowed for a world/camera-space coordinate or
/// vertex attribute, in fixed-point units (2^30, i.e. 16384 world units).
pub const COORD_MAX: i64 = 0x4000_0000;

/// Largest magnitude allowed for a frustum plane normal component
/// (2^22, i.e. a slope of 64 at scale `ONE`).
pub const NORMAL_MAX: i64 = 0x40_0000;

/// Floor division of an `i64` by a positive divisor; agrees with the
/// mathematical `/` of the specification language.
pub fn div_floor_i64(n: i64, d: i64) -> (r: i64)
    requires
        d > 0,
        n > i64::MIN,
    ensures
        r == n as int / d as int,
{
    let q: i64 = n / d;
    let m: i64 = n % d;
    proof {
        lemma_trunc_to_floor(n as int, d as int, q as int, m as int);
    }
    if m != 0 && n < 0 {
        q - 1
    } else {
        q
    }
}

/// Converts the truncated quotient/remainder pair that the machine
/// division yields into the floor quotient of the specification.
proof fn lemma_trunc_to_floor(n: int, d: int, q: int, m: int)
    requires
        d > 0,
        n >= 0 ==> q == n / d && m == n % d,
        n < 0 ==> q == -((-n) / d) && m == -((-n) % d),
    ensures
        m == 0 || n >= 0 ==> q == n / d,
        m != 0 && n < 0 ==> q - 1 == n / d,
{
    if n >= 0 {
    } else {
        let nn = -n;
        vstd::arithmetic::div_mod::lemma_fundamental_div_mod(nn, d);
        assert(0 <= nn % d < d) by (nonlinear_arith)
            requires
                d > 0,
        ;
        assert(d * (-(nn / d)) == -(d * (nn / d))) by (nonlinear_arith);
        if m == 0 {
            assert(n == d * q + 0);
            vstd::arithmetic::div_mod::lemma_fundamental_div_mod_converse(n, d, q, 0);
        } else {
            assert(d * (q - 1) == d * q - d) by (nonlinear_arith);
            assert(n == d * (q - 1) + (d - nn % d));
            vstd::arithmetic::div_mod::lemma_fundamental_div_mod_converse(n, d, q - 1, d - nn % d);
        }
    }
}

/// Floor division of an `i128` by a positive divisor; agrees with the
/// mathematical `/` of the specification language.
pub fn div_floor_i128(n: i128, d: i128) -> (r: i128)
    requires
        d > 0,
        n > i128::MIN,
    ensures
        r == n as int / d as int,
{
    let q: i128 = n / d;
    let m: i128 = n % d;
    proof {
        lemma_trunc_to_floor(n as int, d as int, q as int, m as int);
    }
    if m != 0 && n < 0 {
        q - 1
    } else {
        q
    }
}

/// Truncating division by a positive divisor: the quotient rounded
/// toward zero. Unlike flooring it is symmetric under negation of the
/// dividend, which is what makes the cross product exactly
/// antisymmetric.
pub open spec fn tdiv(n: int, d: int) -> int {
    if n >= 0 {
        n / d
    } else {
        -((-n) / d)
    }
}

/// Negating the dividend negates the truncating quotient.
pub proof fn lemma_tdiv_neg(n: int, d: int)
    requires
        d > 0,
    ensures
        tdiv(-n, d) == -tdiv(n, d),
{
    if n == 0 {
        vstd::arithmetic::div_mod::lemma_div_of0(d);
    }
}

/// The truncating quotient stays within the dividend's magnitude
/// range.
pub proof fn lemma_tdiv_bound(n: int, d: int, m: int)
    requires
        d > 0,
        -m <= n <= m,
        m >= 0,
    ensures
        -m <= tdiv(n, d) <= m,
{
    if n >= 0 {
        lemma_div_bound(n, d, m);
    } else {
        lemma_div_bound(-n, d, m);
        vstd::arithmetic::div_mod::lemma_div_pos_is_pos(-n, d);
    }
}

/// Relates the truncating quotient back to its dividend: the scaled
/// quotient misses the dividend by less than the divisor, on either
/// side.
pub proof fn lemma_tdiv_rem(n: int, d: int)
    requires
        d > 0,
    ensures
        -d < n - d * tdiv(n, d) < d,
{
    if n >= 0 {
        vstd::arithmetic::div_mod::lemma_fundamental_div_mod(n, d);
        assert(0 <= n % d < d) by (nonlinear_arith)
            requires
                d > 0,
        ;
    } else {
        vstd::arithmetic::div_mod::lemma_fundamental_div_mod(-n, d);
        assert(0 <= (-n) % d < d) by (nonlinear_arith)
            requires
                d > 0,
        ;
        assert(d * (-((-n) / d)) == -(d * ((-n) / d))) by (nonlinear_arith);
    }
}

/// Truncating division of an `i128` by a positive divisor.
pub fn div_trunc_i128(n: i128, d: i128) -> (r: i128)
    requires
        d > 0,
        n > i128::MIN,
    ensures
        r == tdiv(n as int, d as int),
{
    n / d
}

/// Widening product of two `i64` values; never overflows.
pub fn mul_wide(a: i64, b: i64) -> (r: i128)
    ensures
        r == a as int * b as int,
{
    proof {
        lemma_mul_bound_abs(a as int, b as int, 0x8000_0000_0000_0000);
    }
    (a as i128) * (b as i128)
}

/// The floor of the square root of a nonnegative integer.
pub open spec fn sqrt_floor(n: int) -> int {
    choose|l: int| 0 <= l && #[trigger] (l * l) <= n < (l + 1) * (l + 1)
}

/// Every nonnegative integer has a floor square root, and
/// `sqrt_floor` denotes it.
pub proof fn lemma_sqrt_floor_props(n: int)
    requires
        n >= 0,
    ensures
        0 <= sqrt_floor(n),
        sqrt_floor(n) * sqrt_floor(n) <= n,
        n < (sqrt_floor(n) + 1) * (sqrt_floor(n) + 1),
    decreases n,
{
    if n == 0 {
        assert(exists|l: int| 0 <= l && #[trigger] (l * l) <= n < (l + 1) * (l + 1)) by {
            assert(0 * 0 <= n < (0 + 1) * (0 + 1)) by (nonlinear_arith)
                requires
                    n == 0,
            ;
        }
    } else {
        lemma_sqrt_floor_props(n - 1);
        let l = sqrt_floor(n - 1);
        if (l + 1) * (l + 1) <= n {
            assert(n == (l + 1) * (l + 1));
            assert((l + 1 + 1) * (l + 1 + 1) > n) by (nonlinear_arith)
                requires
                    l >= 0,
                    n == (l + 1) * (l + 1),
            ;
            assert(exists|w: int| 0 <= w && #[trigger] (w * w) <= n < (w + 1) * (w + 1)) by {
                assert(0 <= l + 1 && (l + 1) * (l + 1) <= n < (l + 1 + 1) * (l + 1 + 1));
            }
        } else {
            assert(exists|w: int| 0 <= w && #[trigger] (w * w) <= n < (w + 1) * (w + 1)) by {
                assert(0 <= l && l * l <= n < (l + 1) * (l + 1));
            }
        }
    }
    let r = sqrt_floor(n);
    assert(0 <= r && r * r <= n < (r + 1) * (r + 1));
}

/// The floor square root is unique.
pub proof fn lemma_sqrt_floor_unique(n: int, l1: int, l2: int)
    requires
        0 <= l1,
        l1 * l1 <= n < (l1 + 1) * (l1 + 1),
        0 <= l2,
        l2 * l2 <= n < (l2 + 1) * (l2 + 1),
    ensures
        l1 == l2,
{
    assert(l1 == l2) by (nonlinear_arith)
        requires
            0 <= l1,
            l1 * l1 <= n < (l1 + 1) * (l1 + 1),
            0 <= l2,
            l2 * l2 <= n < (l2 + 1) * (l2 + 1),
    ;
}

/// The integer square root of a `u64`, by bisection.
pub fn isqrt_u64(n: u64) -> (r: u64)
    ensures
        r * r <= n < (r + 1) * (r + 1),
        r == sqrt_floor(n as int),
{
    let mut lo: u64 = 0;
    let mut hi: u64 = 0x1_0000_0000;
    proof {
        assert((0x1_0000_0000u64 as int) * (0x1_0000_0000u64 as int) > u64::MAX as int)
            by (nonlinear_arith);
    }
    while hi - lo > 1
        invariant
            lo < hi <= 0x1_0000_0000,
            lo * lo <= n,
            n < hi * hi,
        decreases hi - lo,
    {
        let mid: u64 = lo + (hi - lo) / 2;
        proof {
            assert(lo < mid < hi);
            lemma_mul_bound_abs(mid as int, mid as int, 0x1_0000_0000);
        }
        let sq: u128 = (mid as u128) * (mid as u128);
        if sq <= n as u128 {
            lo = mid;
        } else {
            hi = mid;
        }
    }
    proof {
        assert(hi == lo + 1);
        assert(exists|l: int| 0 <= l && #[trigger] (l * l) <= (n as int) < (l + 1) * (l + 1)) by {
            assert(0 <= lo as int && (lo as int) * (lo as int) <= (n as int) && (n as int) < ((
            lo as int) + 1) * ((lo as int) + 1));
        }
        let w = sqrt_floor(n as int);
        lemma_sqrt_floor_unique(n as int, lo as int, w);
    }
    lo
}

/// The product of two values bounded by `m` in magnitude is bounded by `m * m`.
pub proof fn lemma_mul_bound_abs(a: int, b: int, m: int)
    requires
        -m <= a <= m,
        -m <= b <= m,
    ensures
        -(m * m) <= a * b <= m * m,
{
    assert(-(m * m) <= a * b <= m * m) by (nonlinear_arith)
        requires
            -m <= a <= m,
            -m <= b <= m,
    ;
}

/// The product of values bounded by `ma` and `mb` in magnitude is
/// bounded by `ma * mb`.
pub proof fn lemma_mul_bound2(a: int, b: int, ma: int, mb: int)
    requires
        -ma <= a <= ma,
        -mb <= b <= mb,
    ensures
        -(ma * mb) <= a * b <= ma * mb,
{
    assert(-(ma * mb) <= a * b <= ma * mb) by (nonlinear_arith)
        requires
            -ma <= a <= ma,
            -mb <= b <= mb,
    ;
}

/// Floor division by a positive divisor stays within the bounds of the
/// dividend's magnitude range.
pub proof fn lemma_div_bound(n: int, d: int, m: int)
    requires
        d > 0,
        -m <= n <= m,
        m >= 0,
    ensures
        -m <= n / d <= m,
{
    assert(-m <= n / d <= m) by (nonlinear_arith)
        requires
            d > 0,
            -m <= n <= m,
            m >= 0,
    ;
}

} // verus!

//! How close to one the norm of a normalized vector is.

use crate::fixed::{is_isqrt, isqrt, lemma_isqrt_is_root, Fixed, SCALE};
use crate::math::Vec3;
use vstd::prelude::*;

verus! {

/// The largest magnitude of a raw coordinate for which the bound on the norm
/// is shown: 2^61 units, the scalar 2^29.
pub open spec fn spec_coordinate_limit() -> int {
    0x2000_0000_0000_0000
}

/// The least raw norm for which the bound is shown: 2^17 units, the scalar
/// 2^-15.
pub open spec fn spec_norm_floor() -> int {
    0x2_0000
}

/// The bound itself: 42949 units, just under 1/100000.
pub open spec fn spec_unit_tolerance() -> int {
    42949
}

/// Whether a raw coordinate is within the limit.
pub open spec fn spec_within_limit(a: Fixed) -> bool {
    -spec_coordinate_limit() <= a.raw <= spec_coordinate_limit()
}

/// Whether the vector is of moderate size: no coordinate beyond the limit,
/// and a norm of at least 2^-15.
pub open spec fn spec_moderate(v: Vec3) -> bool {
    &&& spec_within_limit(v.x)
    &&& spec_within_limit(v.y)
    &&& spec_within_limit(v.z)
    &&& v.spec_norm().raw >= spec_norm_floor()
}

/// The norm of a vector whose coordinates are within `bound` is the integer
/// square root of the sum of their squares, with nothing cut off.
pub proof fn lemma_norm_is_root(v: Vec3, bound: int)
    requires
        0 <= bound <= 0x2000_0000_0000_0000,
        -bound <= v.x.raw <= bound,
        -bound <= v.y.raw <= bound,
        -bound <= v.z.raw <= bound,
    ensures
        is_isqrt(v.spec_square_sum(), v.spec_norm().raw as int),
        v.spec_norm().raw <= 2 * bound,
{
    reveal(Vec3::spec_norm);
    let q = v.spec_square_sum();
    assert(0 <= v.x.raw * v.x.raw <= bound * bound) by (nonlinear_arith)
        requires
            -bound <= v.x.raw <= bound,
    ;
    assert(0 <= v.y.raw * v.y.raw <= bound * bound) by (nonlinear_arith)
        requires
            -bound <= v.y.raw <= bound,
    ;
    assert(0 <= v.z.raw * v.z.raw <= bound * bound) by (nonlinear_arith)
        requires
            -bound <= v.z.raw <= bound,
    ;
    lemma_isqrt_is_root(q);
    let r = isqrt(q);
    assert(r * r <= (2 * bound) * (2 * bound)) by (nonlinear_arith)
        requires
            r * r <= q,
            q <= 3 * (bound * bound),
    ;
    lemma_root_bound(r, 2 * bound);
}

/// A square no larger than that of `limit` has a root no larger than `limit`.
pub proof fn lemma_root_bound(r: int, limit: int)
    requires
        0 <= r,
        0 <= limit,
        r * r <= limit * limit,
    ensures
        r <= limit,
{
    if r > limit {
        assert(r * r > limit * limit) by (nonlinear_arith)
            requires
                r > limit,
                limit >= 0,
        ;
    }
}

/// The quotient of `a` by a positive `n` no smaller than half the magnitude
/// of `a`: not cut off, of the sign of `a`, and less than one unit short of
/// the true quotient.
pub proof fn lemma_div_bounds(a: Fixed, n: Fixed)
    requires
        n.raw > 0,
        -2 * n.raw <= a.raw <= 2 * n.raw,
    ensures
        -2 * SCALE <= a.spec_div(n).raw <= 2 * SCALE,
        a.raw >= 0 ==> 0 <= a.spec_div(n).raw && a.spec_div(n).raw * n.raw <= a.raw * SCALE
            < a.spec_div(n).raw * n.raw + n.raw,
        a.raw < 0 ==> a.spec_div(n).raw <= 0 && a.spec_div(n).raw * n.raw >= a.raw * SCALE
            > a.spec_div(n).raw * n.raw - n.raw,
{
    reveal(Fixed::spec_div);
    let d = n.raw as int;
    let scale = SCALE as int;
    if a.raw >= 0 {
        let x = a.raw * scale;
        assert(0 <= x <= 2 * scale * d) by (nonlinear_arith)
            requires
                x == a.raw * scale,
                0 <= a.raw <= 2 * d,
                scale > 0,
        ;
        let q = x / d;
        assert(x == d * q + x % d && 0 <= x % d < d) by (nonlinear_arith)
            requires
                q == x / d,
                d > 0,
        ;
        assert(0 <= q <= 2 * scale) by (nonlinear_arith)
            requires
                x == d * q + x % d,
                0 <= x % d < d,
                0 <= x <= 2 * scale * d,
                d > 0,
        ;
        assert(q * d == d * q) by (nonlinear_arith);
    } else {
        let x = (-a.raw) * scale;
        assert(0 < x <= 2 * scale * d && x == -(a.raw * scale)) by (nonlinear_arith)
            requires
                x == (-a.raw) * scale,
                0 < -a.raw <= 2 * d,
                scale > 0,
        ;
        let q = x / d;
        assert(x == d * q + x % d && 0 <= x % d < d) by (nonlinear_arith)
            requires
                q == x / d,
                d > 0,
        ;
        assert(0 <= q <= 2 * scale) by (nonlinear_arith)
            requires
                x == d * q + x % d,
                0 <= x % d < d,
                0 <= x <= 2 * scale * d,
                d > 0,
        ;
        assert((-q) * d == -(d * q)) by (nonlinear_arith);
    }
}

/// The square of a quotient `d` of `a * SCALE` by `n`, rounded toward zero:
/// no larger than the true square, and short of it by less than
/// `(4 * SCALE + 1) * n * n` when `a` is at most `2 * n` in magnitude.
proof fn lemma_quotient_square(a: int, d: int, n: int)
    requires
        n > 0,
        -2 * n <= a <= 2 * n,
        a >= 0 ==> 0 <= d && d * n <= a * SCALE < d * n + n,
        a < 0 ==> d <= 0 && d * n >= a * SCALE > d * n - n,
    ensures
        (d * d) * (n * n) <= (a * a) * (SCALE * SCALE),
        (a * a) * (SCALE * SCALE) <= (d * d) * (n * n) + (4 * SCALE + 1) * (n * n),
{
    let scale = SCALE as int;
    let p = if a >= 0 {
        d * n
    } else {
        -(d * n)
    };
    let t = if a >= 0 {
        a * scale
    } else {
        -(a * scale)
    };
    assert(0 <= p) by (nonlinear_arith)
        requires
            n > 0,
            a >= 0 ==> 0 <= d && p == d * n,
            a < 0 ==> d <= 0 && p == -(d * n),
    ;
    assert(0 <= p <= t < p + n);
    assert(t <= 2 * n * scale) by (nonlinear_arith)
        requires
            t == if a >= 0 {
                a * scale
            } else {
                -(a * scale)
            },
            -2 * n <= a <= 2 * n,
            scale > 0,
    ;
    assert(p * p <= t * t) by (nonlinear_arith)
        requires
            0 <= p <= t,
    ;
    assert(t * t <= p * p + 2 * t * n + n * n) by (nonlinear_arith)
        requires
            0 <= p <= t < p + n,
    ;
    assert(2 * t * n <= 4 * scale * (n * n)) by (nonlinear_arith)
        requires
            0 <= t <= 2 * n * scale,
            n > 0,
    ;
    assert(p * p == (d * d) * (n * n)) by (nonlinear_arith)
        requires
            p == d * n || p == -(d * n),
    ;
    assert(t * t == (a * a) * (scale * scale)) by (nonlinear_arith)
        requires
            t == a * scale || t == -(a * scale),
    ;
    assert((4 * scale + 1) * (n * n) == 4 * scale * (n * n) + n * n) by (nonlinear_arith);
}

/// From the bounds on the sums of squares, the norm of the normalized vector
/// is at most one plus the tolerance.
proof fn lemma_unit_upper(n: int, q: int, qp: int, np: int)
    requires
        n >= 0x2_0000,
        q < (n + 1) * (n + 1),
        qp * (n * n) <= q * (SCALE * SCALE),
        0 <= np,
        np * np <= qp,
    ensures
        np <= SCALE + 42949,
{
    let scale = SCALE as int;
    if np >= scale + 42950 {
        assert(np * n >= (n + 1) * scale) by (nonlinear_arith)
            requires
                np >= scale + 42950,
                n >= 0x2_0000,
                scale == 0x1_0000_0000,
        ;
        assert((np * n) * (np * n) >= ((n + 1) * scale) * ((n + 1) * scale)) by (nonlinear_arith)
            requires
                np * n >= (n + 1) * scale,
                (n + 1) * scale >= 0,
        ;
        assert((np * n) * (np * n) == (np * np) * (n * n)) by (nonlinear_arith);
        assert(((n + 1) * scale) * ((n + 1) * scale) == ((n + 1) * (n + 1)) * (scale * scale))
            by (nonlinear_arith);
        assert((np * np) * (n * n) <= qp * (n * n)) by (nonlinear_arith)
            requires
                np * np <= qp,
        ;
        assert(q * (scale * scale) < ((n + 1) * (n + 1)) * (scale * scale)) by (nonlinear_arith)
            requires
                q < (n + 1) * (n + 1),
                scale * scale > 0,
        ;
        assert(false);
    }
}

/// From the bounds on the sums of squares, the norm of the normalized vector
/// is at least one less the tolerance.
proof fn lemma_unit_lower(n: int, q: int, qp: int, np: int)
    requires
        n > 0,
        q >= n * n,
        q * (SCALE * SCALE) <= qp * (n * n) + 3 * ((4 * SCALE + 1) * (n * n)),
        0 <= np,
        qp < (np + 1) * (np + 1),
    ensures
        np >= SCALE - 42949,
{
    let low: int = 4294924347;
    let low2: int = 18446375146453376409;
    let scale2: int = 18446744073709551616;
    let nn = n * n;
    assert(SCALE * SCALE == scale2);
    assert(low * low == low2);
    assert(nn > 0) by (nonlinear_arith)
        requires
            nn == n * n,
            n > 0,
    ;
    assert(q * scale2 >= nn * scale2) by (nonlinear_arith)
        requires
            q >= nn,
            scale2 > 0,
    ;
    assert(3 * ((4 * SCALE + 1) * nn) == 51539607555 * nn) by (nonlinear_arith);
    assert(nn * scale2 == 18446744073709551616 * nn) by (nonlinear_arith)
        requires
            scale2 == 18446744073709551616,
    ;
    assert(qp * nn >= 18446744022169944061 * nn);
    assert(qp >= 18446744022169944061) by (nonlinear_arith)
        requires
            qp * nn >= 18446744022169944061 * nn,
            nn > 0,
    ;
    if np + 1 <= low {
        assert((np + 1) * (np + 1) <= low * low) by (nonlinear_arith)
            requires
                0 <= np + 1 <= low,
        ;
        assert(false);
    }
}

/// A normalized vector has unit norm within the tolerance of 42949 units,
/// just under 1/100000, when the vector is of moderate size: no coordinate
/// beyond 2^29 in magnitude and a norm of at least 2^-15.
pub proof fn lemma_normalized_has_unit_norm(v: Vec3)
    requires
        spec_moderate(v),
    ensures
        v.spec_normalizable(),
        SCALE - spec_unit_tolerance() <= v.spec_normalize().spec_norm().raw <= SCALE
            + spec_unit_tolerance(),
{
    let bound: int = 0x2000_0000_0000_0000;
    let scale = SCALE as int;
    lemma_norm_is_root(v, bound);
    let norm = v.spec_norm();
    let n = norm.raw as int;
    let q = v.spec_square_sum();
    assert(n * n <= q && q < (n + 1) * (n + 1));
    assert((n + 1) * (n + 1) <= (2 * n) * (2 * n)) by (nonlinear_arith)
        requires
            n >= 0x2_0000,
    ;
    lemma_coordinate_bound(v.x.raw as int, v.y.raw as int, v.z.raw as int, n);
    lemma_coordinate_bound(v.y.raw as int, v.z.raw as int, v.x.raw as int, n);
    lemma_coordinate_bound(v.z.raw as int, v.x.raw as int, v.y.raw as int, n);
    let u = v.spec_normalize();
    lemma_div_bounds(v.x, norm);
    lemma_div_bounds(v.y, norm);
    lemma_div_bounds(v.z, norm);
    lemma_quotient_square(v.x.raw as int, u.x.raw as int, n);
    lemma_quotient_square(v.y.raw as int, u.y.raw as int, n);
    lemma_quotient_square(v.z.raw as int, u.z.raw as int, n);
    let qp = u.spec_square_sum();
    let nn = n * n;
    let ss = scale * scale;
    assert(qp * nn == (u.x.raw * u.x.raw) * nn + (u.y.raw * u.y.raw) * nn + (u.z.raw * u.z.raw)
        * nn) by (nonlinear_arith)
        requires
            qp == u.x.raw * u.x.raw + u.y.raw * u.y.raw + u.z.raw * u.z.raw,
    ;
    assert(q * ss == (v.x.raw * v.x.raw) * ss + (v.y.raw * v.y.raw) * ss + (v.z.raw * v.z.raw)
        * ss) by (nonlinear_arith)
        requires
            q == v.x.raw * v.x.raw + v.y.raw * v.y.raw + v.z.raw * v.z.raw,
    ;
    lemma_norm_is_root(u, 2 * scale);
    let np = u.spec_norm().raw as int;
    lemma_unit_upper(n, q, qp, np);
    lemma_unit_lower(n, q, qp, np);
}

/// A coordinate whose square, with two other squares, stays below the square
/// of `2 * n` is at most `2 * n` in magnitude.
proof fn lemma_coordinate_bound(x: int, y: int, z: int, n: int)
    requires
        n >= 0,
        x * x + y * y + z * z <= (2 * n) * (2 * n),
    ensures
        -2 * n <= x <= 2 * n,
{
    assert(y * y >= 0 && z * z >= 0) by (nonlinear_arith);
    if x >= 0 {
        lemma_root_bound(x, 2 * n);
    } else {
        assert((-x) * (-x) == x * x) by (nonlinear_arith);
        lemma_root_bound(-x, 2 * n);
    }
}

} // verus!

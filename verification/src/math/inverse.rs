//! The inverse of a matrix of whole numbers: its products with the matrix,
//! from either side, are the identity within a few units.

use crate::fixed::{lemma_mul_exact, saturate, trunc_div, Fixed, SCALE};
use crate::math::whole::{
    lemma_det_rows_moved, lemma_repeated_row, lemma_whole_determinant, lemma_whole_minor,
    lemma_whole_product, spec_det, spec_entry, spec_is_whole, spec_whole_determinant,
    spec_whole_matrix, spec_whole_part,
};
use crate::math::{spec_others, Mat3, Vec3};
use vstd::prelude::*;

verus! {

/// What a quotient rounded toward zero leaves over: less than the divisor in
/// magnitude, and of the sign of the dividend.
pub proof fn lemma_trunc_div_remainder(a: int, b: int)
    requires
        b != 0,
    ensures
        a >= 0 ==> 0 <= trunc_div(a, b) * b <= a,
        a < 0 ==> a <= trunc_div(a, b) * b <= 0,
        b > 0 ==> -b < a - trunc_div(a, b) * b < b,
        b < 0 ==> b < a - trunc_div(a, b) * b < -b,
{
    let x = if a >= 0 {
        a
    } else {
        -a
    };
    let d = if b > 0 {
        b
    } else {
        -b
    };
    let q = x / d;
    assert(x == d * q + x % d && 0 <= x % d < d) by (nonlinear_arith)
        requires
            q == x / d,
            d > 0,
    ;
    assert(q >= 0) by (nonlinear_arith)
        requires
            x == d * q + x % d,
            0 <= x % d < d,
            x >= 0,
            d > 0,
    ;
    let t = trunc_div(a, b);
    assert(t == q || t == -q);
    assert(t * b == d * q || t * b == -(d * q)) by (nonlinear_arith)
        requires
            t == q || t == -q,
            d == b || d == -b,
    ;
    assert(d * q >= 0) by (nonlinear_arith)
        requires
            d > 0,
            q >= 0,
    ;
    if a >= 0 {
        if b > 0 {
            assert(t == q);
            assert(t * b == d * q) by (nonlinear_arith)
                requires
                    t == q,
                    d == b,
            ;
        } else {
            assert(t == -q);
            assert(t * b == d * q) by (nonlinear_arith)
                requires
                    t == -q,
                    d == -b,
            ;
        }
    } else {
        if b > 0 {
            assert(t == -q);
            assert(t * b == -(d * q)) by (nonlinear_arith)
                requires
                    t == -q,
                    d == b,
            ;
        } else {
            assert(t == q);
            assert(t * b == -(d * q)) by (nonlinear_arith)
                requires
                    t == q,
                    d == -b,
            ;
        }
    }
}

/// The quotient of a whole scalar `k` by a whole scalar `d` that is not
/// zero: within the magnitude of `k`, and times `d` less than `d` away from
/// `k` itself.
pub proof fn lemma_whole_quotient(a: Fixed, b: Fixed, k: int, d: int)
    requires
        spec_is_whole(a, k),
        spec_is_whole(b, d),
        d != 0,
        -0x8_0000 <= k <= 0x8_0000,
    ensures
        -0x8_0000 * SCALE <= a.spec_div(b).raw <= 0x8_0000 * SCALE,
        d > 0 ==> -d < k * SCALE - a.spec_div(b).raw * d < d,
        d < 0 ==> d < k * SCALE - a.spec_div(b).raw * d < -d,
{
    reveal(Fixed::spec_div);
    let scale = SCALE as int;
    let x = a.raw * scale;
    let y = b.raw as int;
    assert(y != 0 && y == d * scale) by (nonlinear_arith)
        requires
            y == b.raw,
            b.raw == d * scale,
            d != 0,
            scale == 0x1_0000_0000,
    ;
    let q = trunc_div(x, y);
    lemma_trunc_div_remainder(x, y);
    let w = k * scale;
    assert(x == w * scale);
    assert(q * y == (q * d) * scale) by (nonlinear_arith)
        requires
            y == d * scale,
    ;
    assert(x - q * y == (w - q * d) * scale) by (nonlinear_arith)
        requires
            x == w * scale,
            q * y == (q * d) * scale,
    ;
    let r = w - q * d;
    assert(d > 0 ==> -d < r < d) by (nonlinear_arith)
        requires
            d > 0 ==> -y < r * scale < y,
            y == d * scale,
            scale == 0x1_0000_0000,
    ;
    assert(d < 0 ==> d < r < -d) by (nonlinear_arith)
        requires
            d < 0 ==> y < r * scale < -y,
            y == d * scale,
            scale == 0x1_0000_0000,
    ;
    assert(-0x8_0000 * scale <= w <= 0x8_0000 * scale) by (nonlinear_arith)
        requires
            w == k * scale,
            -0x8_0000 <= k <= 0x8_0000,
            scale > 0,
    ;
    assert(-0x8_0000 * scale <= q <= 0x8_0000 * scale) by (nonlinear_arith)
        requires
            w - q * d == r,
            d > 0 ==> -d < r < d,
            d < 0 ==> d < r < -d,
            d != 0,
            -0x8_0000 * scale <= w <= 0x8_0000 * scale,
            w >= 0 ==> 0 <= q * d <= w,
            w < 0 ==> w <= q * d <= 0,
    ;
}

/// The determinant changes its sign when its first two rows change places.
pub proof fn lemma_det_rows_swapped(
    a: int,
    b: int,
    c: int,
    d: int,
    e: int,
    f: int,
    g: int,
    h: int,
    i: int,
)
    ensures
        spec_det(d, e, f, a, b, c, g, h, i) == -spec_det(a, b, c, d, e, f, g, h, i),
{
    assert(a * (e * i - f * h) == a * (e * i) - a * (f * h)) by (nonlinear_arith);
    assert(b * (d * i - f * g) == b * (d * i) - b * (f * g)) by (nonlinear_arith);
    assert(c * (d * h - e * g) == c * (d * h) - c * (e * g)) by (nonlinear_arith);
    assert(d * (b * i - c * h) == d * (b * i) - d * (c * h)) by (nonlinear_arith);
    assert(e * (a * i - c * g) == e * (a * i) - e * (c * g)) by (nonlinear_arith);
    assert(f * (a * h - b * g) == f * (a * h) - f * (b * g)) by (nonlinear_arith);
    assert(a * (e * i) == e * (a * i)) by (nonlinear_arith);
    assert(a * (f * h) == f * (a * h)) by (nonlinear_arith);
    assert(b * (d * i) == d * (b * i)) by (nonlinear_arith);
    assert(b * (f * g) == f * (b * g)) by (nonlinear_arith);
    assert(c * (d * h) == d * (c * h)) by (nonlinear_arith);
    assert(c * (e * g) == e * (c * g)) by (nonlinear_arith);
}

/// The determinant stays as it is when rows and columns change places.
pub proof fn lemma_det_transposed(
    a: int,
    b: int,
    c: int,
    d: int,
    e: int,
    f: int,
    g: int,
    h: int,
    i: int,
)
    ensures
        spec_det(a, d, g, b, e, h, c, f, i) == spec_det(a, b, c, d, e, f, g, h, i),
{
    assert(a * (e * i - f * h) == a * (e * i) - a * (f * h)) by (nonlinear_arith);
    assert(b * (d * i - f * g) == b * (d * i) - b * (f * g)) by (nonlinear_arith);
    assert(c * (d * h - e * g) == c * (d * h) - c * (e * g)) by (nonlinear_arith);
    assert(a * (e * i - h * f) == a * (e * i) - a * (h * f)) by (nonlinear_arith);
    assert(d * (b * i - h * c) == d * (b * i) - d * (h * c)) by (nonlinear_arith);
    assert(g * (b * f - e * c) == g * (b * f) - g * (e * c)) by (nonlinear_arith);
    assert(a * (h * f) == a * (f * h)) by (nonlinear_arith);
    assert(d * (b * i) == b * (d * i)) by (nonlinear_arith);
    assert(d * (h * c) == c * (d * h)) by (nonlinear_arith);
    assert(g * (b * f) == b * (f * g)) by (nonlinear_arith);
    assert(g * (e * c) == c * (e * g)) by (nonlinear_arith);
}

/// A row `(x, y, z)` expanded along the cofactors of row 0, 1 or 2 of a
/// matrix gives the determinant of the matrix with that row replaced by
/// `(x, y, z)`.
pub proof fn lemma_expansions(
    x: int,
    y: int,
    z: int,
    a: int,
    b: int,
    c: int,
    d: int,
    e: int,
    f: int,
    g: int,
    h: int,
    i: int,
)
    ensures
        x * (1 * (e * i - f * h)) + y * (-1 * (d * i - f * g)) + z * (1 * (d * h - e * g))
            == spec_det(x, y, z, d, e, f, g, h, i),
        x * (-1 * (b * i - c * h)) + y * (1 * (a * i - c * g)) + z * (-1 * (a * h - b * g))
            == spec_det(a, b, c, x, y, z, g, h, i),
        x * (1 * (b * f - c * e)) + y * (-1 * (a * f - c * d)) + z * (1 * (a * e - b * d))
            == spec_det(a, b, c, d, e, f, x, y, z),
{
    assert(y * (-1 * (d * i - f * g)) == -(y * (d * i - f * g))) by (nonlinear_arith);
    assert(x * (-1 * (b * i - c * h)) == -(x * (b * i - c * h))) by (nonlinear_arith);
    assert(z * (-1 * (a * h - b * g)) == -(z * (a * h - b * g))) by (nonlinear_arith);
    assert(y * (-1 * (a * f - c * d)) == -(y * (a * f - c * d))) by (nonlinear_arith);
    lemma_det_rows_swapped(x, y, z, a, b, c, g, h, i);
    lemma_det_rows_moved(x, y, z, a, b, c, d, e, f);
    assert(spec_det(a, b, c, x, y, z, g, h, i) == -spec_det(x, y, z, a, b, c, g, h, i));
    assert(spec_det(a, b, c, d, e, f, x, y, z) == spec_det(x, y, z, a, b, c, d, e, f));
}

/// A determinant with two equal rows is zero.
pub proof fn lemma_equal_rows(a: int, b: int, c: int, d: int, e: int, f: int)
    ensures
        spec_det(a, b, c, a, b, c, d, e, f) == 0,
        spec_det(a, b, c, d, e, f, a, b, c) == 0,
        spec_det(d, e, f, a, b, c, a, b, c) == 0,
{
    lemma_repeated_row(a, b, c, d, e, f);
    lemma_det_rows_moved(a, b, c, a, b, c, d, e, f);
    lemma_det_rows_moved(a, b, c, d, e, f, a, b, c);
}

/// The cofactor of entry `(r, c)` of a matrix of whole numbers, over the
/// whole numbers.
pub open spec fn spec_cofactor(m: Mat3, r: int, c: int) -> int {
    let rows = spec_others(r);
    let cols = spec_others(c);
    let minor = spec_entry(m, rows.0, cols.0) * spec_entry(m, rows.1, cols.1) - spec_entry(
        m,
        rows.0,
        cols.1,
    ) * spec_entry(m, rows.1, cols.0);
    if (r + c) % 2 == 0 {
        minor
    } else {
        -minor
    }
}

/// Row `i` expanded along the cofactors of row `k`.
pub open spec fn spec_row_expansion(m: Mat3, i: int, k: int) -> int {
    spec_entry(m, i, 0) * spec_cofactor(m, k, 0) + spec_entry(m, i, 1) * spec_cofactor(m, k, 1)
        + spec_entry(m, i, 2) * spec_cofactor(m, k, 2)
}

/// Column `k` expanded along the cofactors of column `i`.
pub open spec fn spec_col_expansion(m: Mat3, i: int, k: int) -> int {
    spec_cofactor(m, 0, i) * spec_entry(m, 0, k) + spec_cofactor(m, 1, i) * spec_entry(m, 1, k)
        + spec_cofactor(m, 2, i) * spec_entry(m, 2, k)
}

/// The determinant where `i` and `k` agree, zero where they differ.
pub open spec fn spec_on_diagonal(i: int, k: int, d: int) -> int {
    if i == k {
        d
    } else {
        0
    }
}

/// A row expanded along its own cofactors gives the determinant, along the
/// cofactors of another row zero.
proof fn lemma_adjugate_rows(m: Mat3, i: int, k: int)
    requires
        0 <= i < 3,
        0 <= k < 3,
    ensures
        spec_row_expansion(m, i, k) == spec_on_diagonal(i, k, spec_whole_determinant(m)),
{
    let a = spec_entry(m, 0, 0);
    let b = spec_entry(m, 0, 1);
    let c = spec_entry(m, 0, 2);
    let d = spec_entry(m, 1, 0);
    let e = spec_entry(m, 1, 1);
    let f = spec_entry(m, 1, 2);
    let g = spec_entry(m, 2, 0);
    let h = spec_entry(m, 2, 1);
    let j = spec_entry(m, 2, 2);
    lemma_expansions(
        spec_entry(m, i, 0),
        spec_entry(m, i, 1),
        spec_entry(m, i, 2),
        a,
        b,
        c,
        d,
        e,
        f,
        g,
        h,
        j,
    );
    lemma_equal_rows(a, b, c, d, e, f);
    lemma_equal_rows(a, b, c, g, h, j);
    lemma_equal_rows(d, e, f, a, b, c);
    lemma_equal_rows(d, e, f, g, h, j);
    lemma_equal_rows(g, h, j, a, b, c);
    lemma_equal_rows(g, h, j, d, e, f);
}

/// A column expanded along its own cofactors gives the determinant, along
/// the cofactors of another column zero.
proof fn lemma_adjugate_cols(m: Mat3, i: int, k: int)
    requires
        0 <= i < 3,
        0 <= k < 3,
    ensures
        spec_col_expansion(m, i, k) == spec_on_diagonal(i, k, spec_whole_determinant(m)),
{
    let a = spec_entry(m, 0, 0);
    let b = spec_entry(m, 0, 1);
    let c = spec_entry(m, 0, 2);
    let d = spec_entry(m, 1, 0);
    let e = spec_entry(m, 1, 1);
    let f = spec_entry(m, 1, 2);
    let g = spec_entry(m, 2, 0);
    let h = spec_entry(m, 2, 1);
    let j = spec_entry(m, 2, 2);
    let x = spec_entry(m, 0, k);
    let y = spec_entry(m, 1, k);
    let z = spec_entry(m, 2, k);
    lemma_expansions(x, y, z, a, d, g, b, e, h, c, f, j);
    lemma_det_transposed(a, b, c, d, e, f, g, h, j);
    lemma_equal_rows(a, d, g, b, e, h);
    lemma_equal_rows(a, d, g, c, f, j);
    lemma_equal_rows(b, e, h, a, d, g);
    lemma_equal_rows(b, e, h, c, f, j);
    lemma_equal_rows(c, f, j, a, d, g);
    lemma_equal_rows(c, f, j, b, e, h);
    assert(spec_cofactor(m, 0, i) * x == x * spec_cofactor(m, 0, i)) by (nonlinear_arith);
    assert(spec_cofactor(m, 1, i) * y == y * spec_cofactor(m, 1, i)) by (nonlinear_arith);
    assert(spec_cofactor(m, 2, i) * z == z * spec_cofactor(m, 2, i)) by (nonlinear_arith);
    assert(h * f == f * h && h * c == c * h && e * c == c * e && g * f == f * g && g * c == c * g
        && d * c == c * d && g * e == e * g && g * b == b * g && d * b == b * d)
        by (nonlinear_arith);
}

/// The cofactors of a matrix of whole numbers within the limit are exact.
pub proof fn lemma_whole_cofactor(m: Mat3, r: int, c: int)
    requires
        spec_whole_matrix(m),
        0 <= r < 3,
        0 <= c < 3,
    ensures
        spec_is_whole(m.spec_sub_factor(r, c), spec_cofactor(m, r, c)),
        -0x8_0000 <= spec_cofactor(m, r, c) <= 0x8_0000,
{
    let rows = spec_others(r);
    let cols = spec_others(c);
    let sign: int = if (r + c) % 2 == 0 {
        1
    } else {
        -1
    };
    let signed = if (r + c) % 2 == 0 {
        Fixed::spec_from_int(1)
    } else {
        Fixed::spec_from_int(-1)
    };
    assert(spec_is_whole(signed, sign));
    let p = m.at(rows.0, cols.0);
    let q = m.at(rows.1, cols.1);
    let s = m.at(rows.0, cols.1);
    let t = m.at(rows.1, cols.0);
    assert(spec_is_whole(p, spec_whole_part(p)) && -512 <= spec_whole_part(p) <= 512);
    assert(spec_is_whole(q, spec_whole_part(q)) && -512 <= spec_whole_part(q) <= 512);
    assert(spec_is_whole(s, spec_whole_part(s)) && -512 <= spec_whole_part(s) <= 512);
    assert(spec_is_whole(t, spec_whole_part(t)) && -512 <= spec_whole_part(t) <= 512);
    lemma_whole_minor(
        signed,
        p,
        q,
        s,
        t,
        sign,
        spec_whole_part(p),
        spec_whole_part(q),
        spec_whole_part(s),
        spec_whole_part(t),
    );
}

/// The dot product of a vector of whole numbers within the limit with a
/// vector of moderate size is exact, from either side.
pub proof fn lemma_whole_dot(u: Vec3, w: Vec3, k0: int, k1: int, k2: int)
    requires
        spec_is_whole(u.x, k0),
        spec_is_whole(u.y, k1),
        spec_is_whole(u.z, k2),
        -512 <= k0 <= 512,
        -512 <= k1 <= 512,
        -512 <= k2 <= 512,
        -0x8_0000 * SCALE <= w.x.raw <= 0x8_0000 * SCALE,
        -0x8_0000 * SCALE <= w.y.raw <= 0x8_0000 * SCALE,
        -0x8_0000 * SCALE <= w.z.raw <= 0x8_0000 * SCALE,
    ensures
        u.spec_dot(w).raw == k0 * w.x.raw + k1 * w.y.raw + k2 * w.z.raw,
        w.spec_dot(u).raw == k0 * w.x.raw + k1 * w.y.raw + k2 * w.z.raw,
{
    lemma_whole_times(u.x, w.x, k0);
    lemma_whole_times(u.y, w.y, k1);
    lemma_whole_times(u.z, w.z, k2);
}

/// The product of a whole number within the limit with a scalar of moderate
/// size is exact, from either side.
pub proof fn lemma_whole_times(a: Fixed, b: Fixed, k: int)
    requires
        spec_is_whole(a, k),
        -512 <= k <= 512,
        -0x8_0000 * SCALE <= b.raw <= 0x8_0000 * SCALE,
    ensures
        a.spec_mul(b).raw == k * b.raw,
        b.spec_mul(a).raw == k * b.raw,
        -0x1000_0000 * SCALE <= k * b.raw <= 0x1000_0000 * SCALE,
{
    let c = k * b.raw;
    assert(-0x1000_0000 * SCALE <= c <= 0x1000_0000 * SCALE) by (nonlinear_arith)
        requires
            c == k * b.raw,
            -512 <= k <= 512,
            -0x8_0000 * SCALE <= b.raw <= 0x8_0000 * SCALE,
    ;
    assert(a.raw * b.raw == c * SCALE && b.raw * a.raw == c * SCALE) by (nonlinear_arith)
        requires
            a.raw == k * SCALE,
            c == k * b.raw,
    ;
    lemma_mul_exact(a, b, c);
    lemma_mul_exact(b, a, c);
}

/// A weighted sum of three quotients, each less than the divisor away from
/// its dividend, is less than 1536 units away from the weighted sum of the
/// dividends over the divisor, when the weights are within the limit.
proof fn lemma_entry_near(
    m0: int,
    m1: int,
    m2: int,
    q0: int,
    q1: int,
    q2: int,
    a0: int,
    a1: int,
    a2: int,
    d: int,
    target: int,
)
    requires
        -512 <= m0 <= 512,
        -512 <= m1 <= 512,
        -512 <= m2 <= 512,
        d != 0,
        d > 0 ==> -d < a0 * SCALE - q0 * d < d,
        d > 0 ==> -d < a1 * SCALE - q1 * d < d,
        d > 0 ==> -d < a2 * SCALE - q2 * d < d,
        d < 0 ==> d < a0 * SCALE - q0 * d < -d,
        d < 0 ==> d < a1 * SCALE - q1 * d < -d,
        d < 0 ==> d < a2 * SCALE - q2 * d < -d,
        m0 * a0 + m1 * a1 + m2 * a2 == d * target,
    ensures
        -1536 < m0 * q0 + m1 * q1 + m2 * q2 - target * SCALE < 1536,
{
    let scale = SCALE as int;
    let r0 = a0 * scale - q0 * d;
    let r1 = a1 * scale - q1 * d;
    let r2 = a2 * scale - q2 * d;
    let size = if d > 0 {
        d
    } else {
        -d
    };
    assert(-size < r0 < size && -size < r1 < size && -size < r2 < size);
    let off = m0 * q0 + m1 * q1 + m2 * q2 - target * scale;
    assert(m0 * r0 == (m0 * a0) * scale - (m0 * q0) * d) by (nonlinear_arith)
        requires
            r0 == a0 * scale - q0 * d,
    ;
    assert(m1 * r1 == (m1 * a1) * scale - (m1 * q1) * d) by (nonlinear_arith)
        requires
            r1 == a1 * scale - q1 * d,
    ;
    assert(m2 * r2 == (m2 * a2) * scale - (m2 * q2) * d) by (nonlinear_arith)
        requires
            r2 == a2 * scale - q2 * d,
    ;
    assert((m0 * a0 + m1 * a1 + m2 * a2) * scale == (target * scale) * d) by (nonlinear_arith)
        requires
            m0 * a0 + m1 * a1 + m2 * a2 == d * target,
    ;
    assert(off * d == (m0 * q0) * d + (m1 * q1) * d + (m2 * q2) * d - (target * scale) * d)
        by (nonlinear_arith)
        requires
            off == m0 * q0 + m1 * q1 + m2 * q2 - target * scale,
    ;
    assert(off * d == -(m0 * r0 + m1 * r1 + m2 * r2));
    lemma_weighted_error(m0, r0, size);
    lemma_weighted_error(m1, r1, size);
    lemma_weighted_error(m2, r2, size);
    let e = m0 * r0 + m1 * r1 + m2 * r2;
    assert(-1536 * size < e < 1536 * size);
    assert(-1536 < off < 1536) by (nonlinear_arith)
        requires
            off * d == -e,
            -1536 * size < e < 1536 * size,
            size > 0,
            d == size || d == -size,
    ;
}

/// A weight within the limit times an error below `size` stays below 512
/// times `size`.
proof fn lemma_weighted_error(m: int, r: int, size: int)
    requires
        -512 <= m <= 512,
        -size < r < size,
    ensures
        -512 * size < m * r < 512 * size,
{
    assert(-512 * size < m * r < 512 * size) by (nonlinear_arith)
        requires
            -512 <= m <= 512,
            -size < r < size,
    ;
}

/// Whether the matrix is the identity within `tolerance` units in every
/// entry.
pub open spec fn spec_near_identity(p: Mat3, tolerance: int) -> bool {
    forall|i: int, k: int|
        0 <= i < 3 && 0 <= k < 3 ==> -tolerance <= (#[trigger] p.at(i, k)).raw - spec_on_diagonal(
            i,
            k,
            SCALE as int,
        ) <= tolerance
}

/// Entry `(j, k)` of the inverse: the cofactor of `(k, j)` over the
/// determinant.
pub open spec fn spec_inverse_entry(m: Mat3, j: int, k: int) -> Fixed {
    m.spec_sub_factor(k, j).spec_div(m.spec_determinant())
}

/// The entries of the inverse of a matrix of whole numbers within the limit
/// whose determinant is not zero: each of moderate size, and times the
/// determinant less than the determinant away from its cofactor.
pub proof fn lemma_inverse_entry(m: Mat3, j: int, k: int)
    requires
        spec_whole_matrix(m),
        spec_whole_determinant(m) != 0,
        0 <= j < 3,
        0 <= k < 3,
    ensures
        m.spec_invert() is Some,
        m.spec_invert()->0.at(j, k) == spec_inverse_entry(m, j, k),
        -0x8_0000 * SCALE <= spec_inverse_entry(m, j, k).raw <= 0x8_0000 * SCALE,
        spec_whole_determinant(m) > 0 ==> -spec_whole_determinant(m) < spec_cofactor(m, k, j)
            * SCALE - spec_inverse_entry(m, j, k).raw * spec_whole_determinant(m)
            < spec_whole_determinant(m),
        spec_whole_determinant(m) < 0 ==> spec_whole_determinant(m) < spec_cofactor(m, k, j)
            * SCALE - spec_inverse_entry(m, j, k).raw * spec_whole_determinant(m)
            < -spec_whole_determinant(m),
{
    lemma_whole_determinant(m);
    let d = spec_whole_determinant(m);
    assert(m.spec_determinant().raw != 0) by (nonlinear_arith)
        requires
            m.spec_determinant().raw == d * SCALE,
            d != 0,
            SCALE == 0x1_0000_0000,
    ;
    lemma_whole_cofactor(m, k, j);
    lemma_whole_quotient(m.spec_sub_factor(k, j), m.spec_determinant(), spec_cofactor(m, k, j), d);
}

/// One entry of each of the two products of a matrix of whole numbers with
/// its inverse is within 1535 units of the entry of the identity.
proof fn lemma_round_trip_entry(m: Mat3, i: int, k: int)
    requires
        spec_whole_matrix(m),
        spec_whole_determinant(m) != 0,
        0 <= i < 3,
        0 <= k < 3,
    ensures
        m.spec_invert() is Some,
        -1535 <= m.spec_mul(m.spec_invert()->0).at(i, k).raw - spec_on_diagonal(
            i,
            k,
            SCALE as int,
        ) <= 1535,
        -1535 <= m.spec_invert()->0.spec_mul(m).at(i, k).raw - spec_on_diagonal(
            i,
            k,
            SCALE as int,
        ) <= 1535,
{
    let d = spec_whole_determinant(m);
    let target: int = if i == k {
        1
    } else {
        0
    };
    lemma_inverse_entry(m, 0, k);
    lemma_inverse_entry(m, 1, k);
    lemma_inverse_entry(m, 2, k);
    lemma_inverse_entry(m, i, 0);
    lemma_inverse_entry(m, i, 1);
    lemma_inverse_entry(m, i, 2);
    let inv = m.spec_invert()->0;
    assert(spec_is_whole(m.at(i, 0), spec_entry(m, i, 0)) && -512 <= spec_entry(m, i, 0) <= 512);
    assert(spec_is_whole(m.at(i, 1), spec_entry(m, i, 1)) && -512 <= spec_entry(m, i, 1) <= 512);
    assert(spec_is_whole(m.at(i, 2), spec_entry(m, i, 2)) && -512 <= spec_entry(m, i, 2) <= 512);
    assert(spec_is_whole(m.at(0, k), spec_entry(m, 0, k)) && -512 <= spec_entry(m, 0, k) <= 512);
    assert(spec_is_whole(m.at(1, k), spec_entry(m, 1, k)) && -512 <= spec_entry(m, 1, k) <= 512);
    assert(spec_is_whole(m.at(2, k), spec_entry(m, 2, k)) && -512 <= spec_entry(m, 2, k) <= 512);
    lemma_whole_dot(
        m.spec_row(i),
        inv.spec_col(k),
        spec_entry(m, i, 0),
        spec_entry(m, i, 1),
        spec_entry(m, i, 2),
    );
    lemma_adjugate_rows(m, i, k);
    assert(spec_on_diagonal(i, k, d) == d * target) by (nonlinear_arith)
        requires
            target == if i == k {
                1int
            } else {
                0int
            },
            spec_on_diagonal(i, k, d) == if i == k {
                d
            } else {
                0int
            },
    ;
    lemma_entry_near(
        spec_entry(m, i, 0),
        spec_entry(m, i, 1),
        spec_entry(m, i, 2),
        spec_inverse_entry(m, 0, k).raw as int,
        spec_inverse_entry(m, 1, k).raw as int,
        spec_inverse_entry(m, 2, k).raw as int,
        spec_cofactor(m, k, 0),
        spec_cofactor(m, k, 1),
        spec_cofactor(m, k, 2),
        d,
        target,
    );
    assert(m.spec_mul(inv).at(i, k) == m.spec_row(i).spec_dot(inv.spec_col(k)));
    lemma_whole_dot(
        m.spec_col(k),
        inv.spec_row(i),
        spec_entry(m, 0, k),
        spec_entry(m, 1, k),
        spec_entry(m, 2, k),
    );
    lemma_adjugate_cols(m, i, k);
    assert(spec_entry(m, 0, k) * spec_cofactor(m, 0, i) == spec_cofactor(m, 0, i) * spec_entry(
        m,
        0,
        k,
    ) && spec_entry(m, 1, k) * spec_cofactor(m, 1, i) == spec_cofactor(m, 1, i) * spec_entry(
        m,
        1,
        k,
    ) && spec_entry(m, 2, k) * spec_cofactor(m, 2, i) == spec_cofactor(m, 2, i) * spec_entry(
        m,
        2,
        k,
    )) by (nonlinear_arith);
    lemma_entry_near(
        spec_entry(m, 0, k),
        spec_entry(m, 1, k),
        spec_entry(m, 2, k),
        spec_inverse_entry(m, i, 0).raw as int,
        spec_inverse_entry(m, i, 1).raw as int,
        spec_inverse_entry(m, i, 2).raw as int,
        spec_cofactor(m, 0, i),
        spec_cofactor(m, 1, i),
        spec_cofactor(m, 2, i),
        d,
        target,
    );
    assert(inv.spec_mul(m).at(i, k) == inv.spec_row(i).spec_dot(m.spec_col(k)));
}

/// A matrix of whole numbers within the limit whose determinant is not zero
/// has an inverse, and its products with that inverse, from either side, are
/// the identity within 1535 units, less than 4/10000000, in every entry.
pub proof fn lemma_whole_inverse(m: Mat3)
    requires
        spec_whole_matrix(m),
        spec_whole_determinant(m) != 0,
    ensures
        m.spec_invert() is Some,
        spec_near_identity(m.spec_mul(m.spec_invert()->0), 1535),
        spec_near_identity(m.spec_invert()->0.spec_mul(m), 1535),
{
    lemma_round_trip_entry(m, 0, 0);
    let inv = m.spec_invert()->0;
    assert forall|i: int, k: int| 0 <= i < 3 && 0 <= k < 3 implies -1535 <= (#[trigger] m.spec_mul(
        inv,
    ).at(i, k)).raw - spec_on_diagonal(i, k, SCALE as int) <= 1535 by {
        lemma_round_trip_entry(m, i, k);
    }
    assert forall|i: int, k: int| 0 <= i < 3 && 0 <= k < 3 implies -1535 <= (#[trigger] inv.spec_mul(
        m,
    ).at(i, k)).raw - spec_on_diagonal(i, k, SCALE as int) <= 1535 by {
        lemma_round_trip_entry(m, i, k);
    }
}

} // verus!

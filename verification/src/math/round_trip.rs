//! The inverse of a matrix with entries between minus one and one, and a
//! determinant that is not too small: its products with the matrix, from
//! either side, are the identity within less than 6/100000.

use crate::fixed::{lemma_mul_exact, saturate, trunc_div, Fixed, SCALE};
use crate::math::inverse::{
    lemma_det_transposed, lemma_equal_rows, lemma_expansions, lemma_trunc_div_remainder,
    spec_near_identity, spec_on_diagonal,
};
use crate::math::whole::spec_det;
use crate::math::{spec_others, Mat3, Vec3};
use vstd::prelude::*;

verus! {

/// The least magnitude of the raw determinant for which the bound is shown:
/// 2^18 units, the scalar 2^-14.
pub open spec fn spec_determinant_floor() -> int {
    0x4_0000
}

/// The bound: 245766 units, less than 6/100000.
pub open spec fn spec_round_trip_tolerance() -> int {
    245766
}

/// The raw count of entry `(i, j)`.
pub open spec fn spec_raw(m: Mat3, i: int, j: int) -> int {
    m.at(i, j).raw as int
}

/// Whether every entry of the matrix lies between minus one and one.
pub open spec fn spec_unit_entries(m: Mat3) -> bool {
    forall|i: int, j: int| 0 <= i < 3 && 0 <= j < 3 ==> -SCALE <= #[trigger] spec_raw(m, i, j) <= SCALE
}

/// The exact cofactor of entry `(r, c)`, in squared units.
pub open spec fn spec_exact_cofactor(m: Mat3, r: int, c: int) -> int {
    let rows = spec_others(r);
    let cols = spec_others(c);
    let minor = spec_raw(m, rows.0, cols.0) * spec_raw(m, rows.1, cols.1) - spec_raw(
        m,
        rows.0,
        cols.1,
    ) * spec_raw(m, rows.1, cols.0);
    if (r + c) % 2 == 0 {
        minor
    } else {
        -minor
    }
}

/// The exact determinant, in cubed units.
pub open spec fn spec_exact_determinant(m: Mat3) -> int {
    spec_det(
        spec_raw(m, 0, 0),
        spec_raw(m, 0, 1),
        spec_raw(m, 0, 2),
        spec_raw(m, 1, 0),
        spec_raw(m, 1, 1),
        spec_raw(m, 1, 2),
        spec_raw(m, 2, 0),
        spec_raw(m, 2, 1),
        spec_raw(m, 2, 2),
    )
}

/// A row expanded along its own exact cofactors gives the exact determinant,
/// along those of another row zero; and so for the columns.
proof fn lemma_exact_adjugate(m: Mat3, i: int, k: int)
    requires
        0 <= i < 3,
        0 <= k < 3,
    ensures
        spec_raw(m, i, 0) * spec_exact_cofactor(m, k, 0) + spec_raw(m, i, 1) * spec_exact_cofactor(
            m,
            k,
            1,
        ) + spec_raw(m, i, 2) * spec_exact_cofactor(m, k, 2) == spec_on_diagonal(
            i,
            k,
            spec_exact_determinant(m),
        ),
        spec_raw(m, 0, k) * spec_exact_cofactor(m, 0, i) + spec_raw(m, 1, k) * spec_exact_cofactor(
            m,
            1,
            i,
        ) + spec_raw(m, 2, k) * spec_exact_cofactor(m, 2, i) == spec_on_diagonal(
            i,
            k,
            spec_exact_determinant(m),
        ),
{
    let a = spec_raw(m, 0, 0);
    let b = spec_raw(m, 0, 1);
    let c = spec_raw(m, 0, 2);
    let d = spec_raw(m, 1, 0);
    let e = spec_raw(m, 1, 1);
    let f = spec_raw(m, 1, 2);
    let g = spec_raw(m, 2, 0);
    let h = spec_raw(m, 2, 1);
    let j = spec_raw(m, 2, 2);
    lemma_expansions(spec_raw(m, i, 0), spec_raw(m, i, 1), spec_raw(m, i, 2), a, b, c, d, e, f, g, h, j);
    lemma_equal_rows(a, b, c, d, e, f);
    lemma_equal_rows(a, b, c, g, h, j);
    lemma_equal_rows(d, e, f, a, b, c);
    lemma_equal_rows(d, e, f, g, h, j);
    lemma_equal_rows(g, h, j, a, b, c);
    lemma_equal_rows(g, h, j, d, e, f);
    lemma_expansions(spec_raw(m, 0, k), spec_raw(m, 1, k), spec_raw(m, 2, k), a, d, g, b, e, h, c, f, j);
    lemma_det_transposed(a, b, c, d, e, f, g, h, j);
    lemma_equal_rows(a, d, g, b, e, h);
    lemma_equal_rows(a, d, g, c, f, j);
    lemma_equal_rows(b, e, h, a, d, g);
    lemma_equal_rows(b, e, h, c, f, j);
    lemma_equal_rows(c, f, j, a, d, g);
    lemma_equal_rows(c, f, j, b, e, h);
    assert(h * f == f * h && h * c == c * h && e * c == c * e && g * f == f * g && g * c == c * g
        && d * c == c * d && g * e == e * g && g * b == b * g && d * b == b * d)
        by (nonlinear_arith);
}

/// What rounding takes from a product that fits: less than one unit.
proof fn lemma_mul_error(a: Fixed, b: Fixed, bound: int)
    requires
        0 <= bound <= 0x4000_0000_0000_0000,
        -bound * SCALE <= a.raw * b.raw <= bound * SCALE,
    ensures
        -SCALE < a.raw * b.raw - a.spec_mul(b).raw * SCALE < SCALE,
        -bound <= a.spec_mul(b).raw <= bound,
{
    reveal(Fixed::spec_mul);
    let p = a.raw * b.raw;
    assert(-0x4000_0000_0000_0000 * SCALE <= p <= 0x4000_0000_0000_0000 * SCALE) by (nonlinear_arith)
        requires
            -bound * SCALE <= p <= bound * SCALE,
            0 <= bound <= 0x4000_0000_0000_0000,
            SCALE == 0x1_0000_0000,
    ;
    let t = trunc_div(p, SCALE as int);
    assert(-SCALE < p - t * SCALE < SCALE);
    assert(-bound <= t <= bound) by (nonlinear_arith)
        requires
            -SCALE < p - t * SCALE < SCALE,
            -bound * SCALE <= p <= bound * SCALE,
            p >= 0 ==> t >= 0,
            p <= 0 ==> t <= 0,
            SCALE == 0x1_0000_0000,
    ;
}

/// The product of two numbers within bounds is within the product of the
/// bounds.
proof fn lemma_bounded_product(x: int, y: int, bx: int, by: int)
    requires
        -bx <= x <= bx,
        -by <= y <= by,
    ensures
        -(bx * by) <= x * y <= bx * by,
{
    assert(-(bx * by) <= x * y <= bx * by) by (nonlinear_arith)
        requires
            -bx <= x <= bx,
            -by <= y <= by,
    ;
}

/// A computed cofactor of a matrix with entries between minus one and one is
/// less than two units away from the exact one, and at most two in
/// magnitude.
proof fn lemma_cofactor_error(m: Mat3, r: int, c: int)
    requires
        spec_unit_entries(m),
        0 <= r < 3,
        0 <= c < 3,
    ensures
        -2 * SCALE < m.spec_sub_factor(r, c).raw * SCALE - spec_exact_cofactor(m, r, c) < 2
            * SCALE,
        -2 * SCALE <= m.spec_sub_factor(r, c).raw <= 2 * SCALE,
{
    let rows = spec_others(r);
    let cols = spec_others(c);
    let p = m.at(rows.0, cols.0);
    let q = m.at(rows.1, cols.1);
    let s = m.at(rows.0, cols.1);
    let t = m.at(rows.1, cols.0);
    assert(-SCALE <= spec_raw(m, rows.0, cols.0) <= SCALE);
    assert(-SCALE <= spec_raw(m, rows.1, cols.1) <= SCALE);
    assert(-SCALE <= spec_raw(m, rows.0, cols.1) <= SCALE);
    assert(-SCALE <= spec_raw(m, rows.1, cols.0) <= SCALE);
    lemma_bounded_product(p.raw as int, q.raw as int, SCALE as int, SCALE as int);
    lemma_bounded_product(s.raw as int, t.raw as int, SCALE as int, SCALE as int);
    lemma_mul_error(p, q, SCALE as int);
    lemma_mul_error(s, t, SCALE as int);
    let minor = p.spec_mul(q).spec_sub(s.spec_mul(t));
    assert(minor.raw == p.spec_mul(q).raw - s.spec_mul(t).raw);
    let sign = if (r + c) % 2 == 0 {
        Fixed::spec_from_int(1)
    } else {
        Fixed::spec_from_int(-1)
    };
    let signed: int = if (r + c) % 2 == 0 {
        minor.raw as int
    } else {
        -minor.raw
    };
    assert(sign.raw * minor.raw == signed * SCALE) by (nonlinear_arith)
        requires
            (sign.raw == SCALE && signed == minor.raw) || (sign.raw == -SCALE && signed
                == -minor.raw),
    ;
    lemma_mul_exact(sign, minor, signed);
    assert(m.spec_sub_factor(r, c) == sign.spec_mul(minor));
    assert((-minor.raw) * SCALE == -(minor.raw * SCALE)) by (nonlinear_arith);
    assert(minor.raw * SCALE == p.spec_mul(q).raw * SCALE - s.spec_mul(t).raw * SCALE)
        by (nonlinear_arith)
        requires
            minor.raw == p.spec_mul(q).raw - s.spec_mul(t).raw,
    ;
}

/// The computed determinant of a matrix with entries between minus one and
/// one, taken to cubed units, is less than nine squared units away from the
/// exact one.
proof fn lemma_determinant_error(m: Mat3)
    requires
        spec_unit_entries(m),
    ensures
        -9 * (SCALE * SCALE) < m.spec_determinant().raw * (SCALE * SCALE) - spec_exact_determinant(
            m,
        ) < 9 * (SCALE * SCALE),
{
    lemma_cofactor_error(m, 0, 0);
    lemma_cofactor_error(m, 0, 1);
    lemma_cofactor_error(m, 0, 2);
    lemma_exact_adjugate(m, 0, 0);
    let scale = SCALE as int;
    let e0 = spec_raw(m, 0, 0);
    let e1 = spec_raw(m, 0, 1);
    let e2 = spec_raw(m, 0, 2);
    let c0 = m.spec_sub_factor(0, 0);
    let c1 = m.spec_sub_factor(0, 1);
    let c2 = m.spec_sub_factor(0, 2);
    assert(-scale <= e0 <= scale && -scale <= e1 <= scale && -scale <= e2 <= scale);
    lemma_bounded_product(e0, c0.raw as int, scale, 2 * scale);
    lemma_bounded_product(e1, c1.raw as int, scale, 2 * scale);
    lemma_bounded_product(e2, c2.raw as int, scale, 2 * scale);
    assert(scale * (2 * scale) == (2 * scale) * scale) by (nonlinear_arith);
    lemma_mul_error(m.at(0, 0), c0, 2 * scale);
    lemma_mul_error(m.at(0, 1), c1, 2 * scale);
    lemma_mul_error(m.at(0, 2), c2, 2 * scale);
    let t0 = m.at(0, 0).spec_mul(c0).raw as int;
    let t1 = m.at(0, 1).spec_mul(c1).raw as int;
    let t2 = m.at(0, 2).spec_mul(c2).raw as int;
    let d = m.spec_determinant().raw as int;
    assert(m.spec_determinant() == m.at(0, 0).spec_mul(c0).spec_add(m.at(0, 1).spec_mul(c1)).spec_add(
        m.at(0, 2).spec_mul(c2),
    ));
    assert(d == t0 + t1 + t2);
    let x0 = spec_exact_cofactor(m, 0, 0);
    let x1 = spec_exact_cofactor(m, 0, 1);
    let x2 = spec_exact_cofactor(m, 0, 2);
    let y0 = c0.raw * scale - x0;
    let y1 = c1.raw * scale - x1;
    let y2 = c2.raw * scale - x2;
    lemma_bounded_product(e0, y0, scale, 2 * scale);
    lemma_bounded_product(e1, y1, scale, 2 * scale);
    lemma_bounded_product(e2, y2, scale, 2 * scale);
    assert(e0 * y0 == (e0 * c0.raw) * scale - e0 * x0) by (nonlinear_arith)
        requires
            y0 == c0.raw * scale - x0,
    ;
    assert(e1 * y1 == (e1 * c1.raw) * scale - e1 * x1) by (nonlinear_arith)
        requires
            y1 == c1.raw * scale - x1,
    ;
    assert(e2 * y2 == (e2 * c2.raw) * scale - e2 * x2) by (nonlinear_arith)
        requires
            y2 == c2.raw * scale - x2,
    ;
    let w = (e0 * c0.raw - t0 * scale) + (e1 * c1.raw - t1 * scale) + (e2 * c2.raw - t2 * scale);
    assert(-3 * scale < w < 3 * scale);
    assert(w * scale == (e0 * c0.raw) * scale + (e1 * c1.raw) * scale + (e2 * c2.raw) * scale - d
        * (scale * scale)) by (nonlinear_arith)
        requires
            w == (e0 * c0.raw - t0 * scale) + (e1 * c1.raw - t1 * scale) + (e2 * c2.raw - t2
                * scale),
            d == t0 + t1 + t2,
    ;
    assert(-3 * (scale * scale) < w * scale < 3 * (scale * scale)) by (nonlinear_arith)
        requires
            -3 * scale < w < 3 * scale,
            scale > 0,
    ;
    assert(2 * scale * scale == 2 * (scale * scale) && scale * (2 * scale) == 2 * (scale * scale))
        by (nonlinear_arith);
}

/// Whether the matrix has entries between minus one and one and a computed
/// determinant of at least 2^-14 in magnitude.
pub open spec fn spec_well_conditioned(m: Mat3) -> bool {
    &&& spec_unit_entries(m)
    &&& m.spec_determinant().raw >= spec_determinant_floor() || m.spec_determinant().raw
        <= -spec_determinant_floor()
}

/// Entry `(j, k)` of the inverse of a well-conditioned matrix: the computed
/// cofactor of `(k, j)` over the computed determinant, less than the
/// determinant away from it when taken times the determinant, and of
/// moderate size.
proof fn lemma_inverse_entry_error(m: Mat3, j: int, k: int)
    requires
        spec_well_conditioned(m),
        0 <= j < 3,
        0 <= k < 3,
    ensures
        m.spec_invert() is Some,
        m.spec_determinant().raw > 0 ==> -m.spec_determinant().raw < m.spec_sub_factor(k, j).raw
            * SCALE - m.spec_invert()->0.at(j, k).raw * m.spec_determinant().raw
            < m.spec_determinant().raw,
        m.spec_determinant().raw < 0 ==> m.spec_determinant().raw < m.spec_sub_factor(k, j).raw
            * SCALE - m.spec_invert()->0.at(j, k).raw * m.spec_determinant().raw
            < -m.spec_determinant().raw,
        -0x8000_0000_0000 <= m.spec_invert()->0.at(j, k).raw <= 0x8000_0000_0000,
{
    reveal(Fixed::spec_div);
    lemma_cofactor_error(m, k, j);
    let d = m.spec_determinant().raw as int;
    let c = m.spec_sub_factor(k, j).raw as int;
    let x = c * SCALE;
    lemma_trunc_div_remainder(x, d);
    let q = trunc_div(x, d);
    assert(-2 * (SCALE * SCALE) <= x <= 2 * (SCALE * SCALE)) by (nonlinear_arith)
        requires
            x == c * SCALE,
            -2 * SCALE <= c <= 2 * SCALE,
            SCALE > 0,
    ;
    assert(-0x8000_0000_0000 <= q <= 0x8000_0000_0000) by (nonlinear_arith)
        requires
            x >= 0 ==> 0 <= q * d <= x,
            x < 0 ==> x <= q * d <= 0,
            -2 * (SCALE * SCALE) <= x <= 2 * (SCALE * SCALE),
            d >= 0x4_0000 || d <= -0x4_0000,
            SCALE == 0x1_0000_0000,
    ;
    assert(m.spec_invert()->0.at(j, k) == m.spec_sub_factor(k, j).spec_div(m.spec_determinant()));
}

/// The dot product of a vector with entries between minus one and one with
/// a vector of moderate size, from either side, taken back to squared
/// units, is less than three units away from the exact one.
proof fn lemma_dot_error(u: Vec3, w: Vec3)
    requires
        -SCALE <= u.x.raw <= SCALE,
        -SCALE <= u.y.raw <= SCALE,
        -SCALE <= u.z.raw <= SCALE,
        -0x8000_0000_0000 <= w.x.raw <= 0x8000_0000_0000,
        -0x8000_0000_0000 <= w.y.raw <= 0x8000_0000_0000,
        -0x8000_0000_0000 <= w.z.raw <= 0x8000_0000_0000,
    ensures
        -3 * SCALE < u.spec_dot(w).raw * SCALE - (u.x.raw * w.x.raw + u.y.raw * w.y.raw + u.z.raw
            * w.z.raw) < 3 * SCALE,
        -3 * SCALE < w.spec_dot(u).raw * SCALE - (u.x.raw * w.x.raw + u.y.raw * w.y.raw + u.z.raw
            * w.z.raw) < 3 * SCALE,
{
    let scale = SCALE as int;
    let big: int = 0x8000_0000_0000;
    lemma_bounded_product(u.x.raw as int, w.x.raw as int, scale, big);
    lemma_bounded_product(u.y.raw as int, w.y.raw as int, scale, big);
    lemma_bounded_product(u.z.raw as int, w.z.raw as int, scale, big);
    assert(scale * big == big * scale) by (nonlinear_arith);
    assert(u.x.raw * w.x.raw == w.x.raw * u.x.raw && u.y.raw * w.y.raw == w.y.raw * u.y.raw
        && u.z.raw * w.z.raw == w.z.raw * u.z.raw) by (nonlinear_arith);
    lemma_mul_error(u.x, w.x, big);
    lemma_mul_error(u.y, w.y, big);
    lemma_mul_error(u.z, w.z, big);
    lemma_mul_error(w.x, u.x, big);
    lemma_mul_error(w.y, u.y, big);
    lemma_mul_error(w.z, u.z, big);
    let a = u.x.spec_mul(w.x).raw + u.y.spec_mul(w.y).raw + u.z.spec_mul(w.z).raw;
    assert(u.spec_dot(w).raw == a);
    assert(a * scale == u.x.spec_mul(w.x).raw * scale + u.y.spec_mul(w.y).raw * scale
        + u.z.spec_mul(w.z).raw * scale) by (nonlinear_arith)
        requires
            a == u.x.spec_mul(w.x).raw + u.y.spec_mul(w.y).raw + u.z.spec_mul(w.z).raw,
    ;
    let b = w.x.spec_mul(u.x).raw + w.y.spec_mul(u.y).raw + w.z.spec_mul(u.z).raw;
    assert(w.spec_dot(u).raw == b);
    assert(b * scale == w.x.spec_mul(u.x).raw * scale + w.y.spec_mul(u.y).raw * scale
        + w.z.spec_mul(u.z).raw * scale) by (nonlinear_arith)
        requires
            b == w.x.spec_mul(u.x).raw + w.y.spec_mul(u.y).raw + w.z.spec_mul(u.z).raw,
    ;
}

/// The heart of the bound, over the integers: from the errors of the
/// cofactors, of the determinant, of the quotients and of the dot product,
/// the error of one entry of a product of a matrix and its inverse.
proof fn lemma_round_trip_core(
    e0: int,
    e1: int,
    e2: int,
    q0: int,
    q1: int,
    q2: int,
    c0: int,
    c1: int,
    c2: int,
    x0: int,
    x1: int,
    x2: int,
    d: int,
    detx: int,
    delta: int,
    p: int,
)
    requires
        -SCALE <= e0 <= SCALE && -SCALE <= e1 <= SCALE && -SCALE <= e2 <= SCALE,
        -2 * SCALE < c0 * SCALE - x0 < 2 * SCALE,
        -2 * SCALE < c1 * SCALE - x1 < 2 * SCALE,
        -2 * SCALE < c2 * SCALE - x2 < 2 * SCALE,
        d >= 0x4_0000 || d <= -0x4_0000,
        d > 0 ==> -d < c0 * SCALE - q0 * d < d && -d < c1 * SCALE - q1 * d < d && -d < c2 * SCALE
            - q2 * d < d,
        d < 0 ==> d < c0 * SCALE - q0 * d < -d && d < c1 * SCALE - q1 * d < -d && d < c2 * SCALE
            - q2 * d < -d,
        delta == 0 || delta == 1,
        e0 * x0 + e1 * x1 + e2 * x2 == delta * detx,
        -9 * (SCALE * SCALE) < d * (SCALE * SCALE) - detx < 9 * (SCALE * SCALE),
        -3 * SCALE < p * SCALE - (e0 * q0 + e1 * q1 + e2 * q2) < 3 * SCALE,
    ensures
        -245766 <= p - delta * SCALE <= 245766,
{
    let scale = SCALE as int;
    let ss = scale * scale;
    let size = if d > 0 {
        d
    } else {
        -d
    };
    let a = e0 * q0 + e1 * q1 + e2 * q2;
    let r0 = c0 * scale - q0 * d;
    let r1 = c1 * scale - q1 * d;
    let r2 = c2 * scale - q2 * d;
    let y0 = c0 * scale - x0;
    let y1 = c1 * scale - x1;
    let y2 = c2 * scale - x2;
    assert(-size < r0 < size && -size < r1 < size && -size < r2 < size);
    lemma_bounded_product(e0, r0, scale, size);
    lemma_bounded_product(e1, r1, scale, size);
    lemma_bounded_product(e2, r2, scale, size);
    lemma_bounded_product(e0, y0, scale, 2 * scale);
    lemma_bounded_product(e1, y1, scale, 2 * scale);
    lemma_bounded_product(e2, y2, scale, 2 * scale);
    assert(scale * (2 * scale) == 2 * ss) by (nonlinear_arith)
        requires
            ss == scale * scale,
    ;
    // e * (q * d) = e * c * scale - e * r, and e * c * scale = e * x + e * y
    assert(e0 * r0 == (e0 * c0) * scale - (e0 * q0) * d && e0 * y0 == (e0 * c0) * scale - e0 * x0)
        by (nonlinear_arith)
        requires
            r0 == c0 * scale - q0 * d,
            y0 == c0 * scale - x0,
    ;
    assert(e1 * r1 == (e1 * c1) * scale - (e1 * q1) * d && e1 * y1 == (e1 * c1) * scale - e1 * x1)
        by (nonlinear_arith)
        requires
            r1 == c1 * scale - q1 * d,
            y1 == c1 * scale - x1,
    ;
    assert(e2 * r2 == (e2 * c2) * scale - (e2 * q2) * d && e2 * y2 == (e2 * c2) * scale - e2 * x2)
        by (nonlinear_arith)
        requires
            r2 == c2 * scale - q2 * d,
            y2 == c2 * scale - x2,
    ;
    assert(a * d == (e0 * q0) * d + (e1 * q1) * d + (e2 * q2) * d) by (nonlinear_arith)
        requires
            a == e0 * q0 + e1 * q1 + e2 * q2,
    ;
    let big_y = e0 * y0 + e1 * y1 + e2 * y2;
    let big_r = e0 * r0 + e1 * r1 + e2 * r2;
    assert(a * d == delta * detx + big_y - big_r);
    let z = d * ss - detx;
    assert(delta * detx == delta * (d * ss) - delta * z) by (nonlinear_arith)
        requires
            z == d * ss - detx,
    ;
    assert(delta * (d * ss) == d * (delta * ss)) by (nonlinear_arith);
    assert(-9 * ss < delta * z < 9 * ss || delta * z == 0) by (nonlinear_arith)
        requires
            delta == 0 || delta == 1,
            -9 * ss < z < 9 * ss,
    ;
    // d * (a - delta * ss) = -delta * z + big_y - big_r
    let off = a - delta * ss;
    assert(d * off == a * d - d * (delta * ss)) by (nonlinear_arith)
        requires
            off == a - delta * ss,
    ;
    assert(-(15 * ss + 3 * (scale * size)) < d * off < 15 * ss + 3 * (scale * size));
    // the dot product adds less than three units
    let w = p * scale - a;
    let t = p - delta * scale;
    assert(t * scale == off + w) by (nonlinear_arith)
        requires
            t == p - delta * scale,
            off == a - delta * ss,
            w == p * scale - a,
            ss == scale * scale,
    ;
    lemma_bounded_product(d, w, size, 3 * scale);
    assert(size * (3 * scale) == 3 * (scale * size)) by (nonlinear_arith);
    assert(d * (t * scale) == d * off + d * w) by (nonlinear_arith)
        requires
            t * scale == off + w,
    ;
    assert(d * (t * scale) == (d * t) * scale) by (nonlinear_arith);
    let dt = d * t;
    assert(-(15 * ss + 6 * (scale * size)) < dt * scale < 15 * ss + 6 * (scale * size));
    assert(-(15 * scale + 6 * size) < dt < 15 * scale + 6 * size) by (nonlinear_arith)
        requires
            -(15 * ss + 6 * (scale * size)) < dt * scale < 15 * ss + 6 * (scale * size),
            ss == scale * scale,
            scale > 0,
    ;
    assert(15 * scale <= 245760 * size);
    assert(-245766 <= t <= 245766) by (nonlinear_arith)
        requires
            dt == d * t,
            d == size || d == -size,
            size >= 0x4_0000,
            -(245760 * size + 6 * size) < dt < 245760 * size + 6 * size,
    ;
}

/// One entry of each of the two products of a well-conditioned matrix with
/// its inverse is within the tolerance of the entry of the identity.
proof fn lemma_round_trip_entry(m: Mat3, i: int, k: int)
    requires
        spec_well_conditioned(m),
        0 <= i < 3,
        0 <= k < 3,
    ensures
        m.spec_invert() is Some,
        -245766 <= m.spec_mul(m.spec_invert()->0).at(i, k).raw - spec_on_diagonal(
            i,
            k,
            SCALE as int,
        ) <= 245766,
        -245766 <= m.spec_invert()->0.spec_mul(m).at(i, k).raw - spec_on_diagonal(
            i,
            k,
            SCALE as int,
        ) <= 245766,
{
    let d = m.spec_determinant().raw as int;
    let delta: int = if i == k {
        1
    } else {
        0
    };
    lemma_determinant_error(m);
    lemma_exact_adjugate(m, i, k);
    let detx = spec_exact_determinant(m);
    assert(spec_on_diagonal(i, k, detx) == delta * detx) by (nonlinear_arith)
        requires
            (delta == 1 && spec_on_diagonal(i, k, detx) == detx) || (delta == 0 && spec_on_diagonal(
                i,
                k,
                detx,
            ) == 0),
    ;
    assert(spec_on_diagonal(i, k, SCALE as int) == delta * SCALE);
    lemma_inverse_entry_error(m, 0, k);
    lemma_inverse_entry_error(m, 1, k);
    lemma_inverse_entry_error(m, 2, k);
    lemma_inverse_entry_error(m, i, 0);
    lemma_inverse_entry_error(m, i, 1);
    lemma_inverse_entry_error(m, i, 2);
    lemma_cofactor_error(m, k, 0);
    lemma_cofactor_error(m, k, 1);
    lemma_cofactor_error(m, k, 2);
    lemma_cofactor_error(m, 0, i);
    lemma_cofactor_error(m, 1, i);
    lemma_cofactor_error(m, 2, i);
    let inv = m.spec_invert()->0;
    assert(-SCALE <= spec_raw(m, i, 0) <= SCALE && -SCALE <= spec_raw(m, i, 1) <= SCALE && -SCALE
        <= spec_raw(m, i, 2) <= SCALE);
    assert(-SCALE <= spec_raw(m, 0, k) <= SCALE && -SCALE <= spec_raw(m, 1, k) <= SCALE && -SCALE
        <= spec_raw(m, 2, k) <= SCALE);
    // from the right
    lemma_dot_error(m.spec_row(i), inv.spec_col(k));
    let right = m.spec_mul(inv).at(i, k);
    assert(right == m.spec_row(i).spec_dot(inv.spec_col(k)));
    lemma_round_trip_core(
        spec_raw(m, i, 0),
        spec_raw(m, i, 1),
        spec_raw(m, i, 2),
        inv.at(0, k).raw as int,
        inv.at(1, k).raw as int,
        inv.at(2, k).raw as int,
        m.spec_sub_factor(k, 0).raw as int,
        m.spec_sub_factor(k, 1).raw as int,
        m.spec_sub_factor(k, 2).raw as int,
        spec_exact_cofactor(m, k, 0),
        spec_exact_cofactor(m, k, 1),
        spec_exact_cofactor(m, k, 2),
        d,
        detx,
        delta,
        right.raw as int,
    );
    // from the left
    lemma_dot_error(m.spec_col(k), inv.spec_row(i));
    let left = inv.spec_mul(m).at(i, k);
    assert(left == inv.spec_row(i).spec_dot(m.spec_col(k)));
    lemma_round_trip_core(
        spec_raw(m, 0, k),
        spec_raw(m, 1, k),
        spec_raw(m, 2, k),
        inv.at(i, 0).raw as int,
        inv.at(i, 1).raw as int,
        inv.at(i, 2).raw as int,
        m.spec_sub_factor(0, i).raw as int,
        m.spec_sub_factor(1, i).raw as int,
        m.spec_sub_factor(2, i).raw as int,
        spec_exact_cofactor(m, 0, i),
        spec_exact_cofactor(m, 1, i),
        spec_exact_cofactor(m, 2, i),
        d,
        detx,
        delta,
        left.raw as int,
    );
}

/// A matrix with entries between minus one and one whose computed
/// determinant is at least 2^-14 in magnitude has an inverse, and its
/// products with that inverse, from either side, are the identity within
/// 245766 units, less than 6/100000, in every entry.
pub proof fn lemma_inverse_round_trip(m: Mat3)
    requires
        spec_well_conditioned(m),
    ensures
        m.spec_invert() is Some,
        spec_near_identity(m.spec_mul(m.spec_invert()->0), spec_round_trip_tolerance()),
        spec_near_identity(m.spec_invert()->0.spec_mul(m), spec_round_trip_tolerance()),
{
    lemma_round_trip_entry(m, 0, 0);
    let inv = m.spec_invert()->0;
    assert forall|i: int, k: int| 0 <= i < 3 && 0 <= k < 3 implies -245766 <= (
    #[trigger] m.spec_mul(inv).at(i, k)).raw - spec_on_diagonal(i, k, SCALE as int) <= 245766 by {
        lemma_round_trip_entry(m, i, k);
    }
    assert forall|i: int, k: int| 0 <= i < 3 && 0 <= k < 3 implies -245766 <= (
    #[trigger] inv.spec_mul(m).at(i, k)).raw - spec_on_diagonal(i, k, SCALE as int) <= 245766 by {
        lemma_round_trip_entry(m, i, k);
    }
}

} // verus!

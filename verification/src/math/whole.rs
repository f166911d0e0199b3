//! Matrices of whole numbers: their determinant is computed exactly, so a
//! matrix whose rows depend on one another is found to have no inverse.

use crate::fixed::{lemma_mul_exact, Fixed, SCALE};
use crate::math::Mat3;
use vstd::prelude::*;

verus! {

/// The largest magnitude of a whole entry for which the determinant is shown
/// to be exact.
pub open spec fn spec_entry_limit() -> int {
    512
}

/// Whether the scalar is the whole number `k`.
pub open spec fn spec_is_whole(a: Fixed, k: int) -> bool {
    a.raw == k * SCALE
}

/// The whole number that a scalar stands for, when it is one.
pub open spec fn spec_whole_part(a: Fixed) -> int {
    (a.raw as int) / (SCALE as int)
}

/// Whether every entry of the matrix is a whole number within the limit.
pub open spec fn spec_whole_matrix(m: Mat3) -> bool {
    forall|i: int, j: int|
        0 <= i < 3 && 0 <= j < 3 ==> spec_is_whole(
            #[trigger] m.at(i, j),
            spec_whole_part(m.at(i, j)),
        ) && -spec_entry_limit() <= spec_whole_part(m.at(i, j)) <= spec_entry_limit()
}

/// Entry `(i, j)` of a matrix of whole numbers, as a whole number.
pub open spec fn spec_entry(m: Mat3, i: int, j: int) -> int {
    spec_whole_part(m.at(i, j))
}

/// The determinant of a matrix given by its nine whole entries.
pub open spec fn spec_det(
    a: int,
    b: int,
    c: int,
    d: int,
    e: int,
    f: int,
    g: int,
    h: int,
    i: int,
) -> int {
    a * (e * i - f * h) - b * (d * i - f * g) + c * (d * h - e * g)
}

/// The determinant of a matrix of whole numbers, over the whole numbers.
pub open spec fn spec_whole_determinant(m: Mat3) -> int {
    spec_det(
        spec_entry(m, 0, 0),
        spec_entry(m, 0, 1),
        spec_entry(m, 0, 2),
        spec_entry(m, 1, 0),
        spec_entry(m, 1, 1),
        spec_entry(m, 1, 2),
        spec_entry(m, 2, 0),
        spec_entry(m, 2, 1),
        spec_entry(m, 2, 2),
    )
}

/// The product of two whole scalars is the whole product, as long as it
/// fits.
pub proof fn lemma_whole_product(a: Fixed, b: Fixed, k: int, l: int, bound: int)
    requires
        spec_is_whole(a, k),
        spec_is_whole(b, l),
        0 <= bound <= 0x7fff_ffff,
        -bound <= k * l <= bound,
    ensures
        spec_is_whole(a.spec_mul(b), k * l),
{
    let c = (k * l) * SCALE;
    assert(a.raw * b.raw == c * SCALE) by (nonlinear_arith)
        requires
            a.raw == k * SCALE,
            b.raw == l * SCALE,
            c == (k * l) * SCALE,
    ;
    assert(i64::MIN <= c <= i64::MAX) by (nonlinear_arith)
        requires
            c == (k * l) * SCALE,
            -0x7fff_ffff <= k * l <= 0x7fff_ffff,
            SCALE == 0x1_0000_0000,
    ;
    lemma_mul_exact(a, b, c);
}

/// A 2x2 minor of whole scalars, with its sign, is the whole minor.
pub proof fn lemma_whole_minor(
    sign: Fixed,
    p: Fixed,
    q: Fixed,
    r: Fixed,
    s: Fixed,
    sg: int,
    k: int,
    l: int,
    m: int,
    n: int,
)
    requires
        spec_is_whole(sign, sg),
        sg == 1 || sg == -1,
        spec_is_whole(p, k),
        spec_is_whole(q, l),
        spec_is_whole(r, m),
        spec_is_whole(s, n),
        -512 <= k <= 512,
        -512 <= l <= 512,
        -512 <= m <= 512,
        -512 <= n <= 512,
    ensures
        spec_is_whole(sign.spec_mul(p.spec_mul(q).spec_sub(r.spec_mul(s))), sg * (k * l - m * n)),
        -0x8_0000 <= sg * (k * l - m * n) <= 0x8_0000,
{
    assert(-0x4_0000 <= k * l <= 0x4_0000) by (nonlinear_arith)
        requires
            -512 <= k <= 512,
            -512 <= l <= 512,
    ;
    assert(-0x4_0000 <= m * n <= 0x4_0000) by (nonlinear_arith)
        requires
            -512 <= m <= 512,
            -512 <= n <= 512,
    ;
    lemma_whole_product(p, q, k, l, 0x4_0000);
    lemma_whole_product(r, s, m, n, 0x4_0000);
    let minor = p.spec_mul(q).spec_sub(r.spec_mul(s));
    let w = k * l - m * n;
    assert(minor.raw == w * SCALE) by (nonlinear_arith)
        requires
            minor.raw == crate::fixed::saturate(p.spec_mul(q).raw - r.spec_mul(s).raw),
            p.spec_mul(q).raw == (k * l) * SCALE,
            r.spec_mul(s).raw == (m * n) * SCALE,
            w == k * l - m * n,
            -0x4_0000 <= k * l <= 0x4_0000,
            -0x4_0000 <= m * n <= 0x4_0000,
            SCALE == 0x1_0000_0000,
    ;
    assert(-0x8_0000 <= sg * w <= 0x8_0000) by (nonlinear_arith)
        requires
            sg == 1 || sg == -1,
            -0x8_0000 <= w <= 0x8_0000,
    ;
    lemma_whole_product(sign, minor, sg, w, 0x8_0000);
}

/// The determinant of a matrix of whole numbers within the limit is exact:
/// it is the determinant over the whole numbers.
pub proof fn lemma_whole_determinant(m: Mat3)
    requires
        spec_whole_matrix(m),
    ensures
        spec_is_whole(m.spec_determinant(), spec_whole_determinant(m)),
{
    let plus = Fixed::spec_from_int(1);
    let minus = Fixed::spec_from_int(-1);
    assert(spec_is_whole(plus, 1) && spec_is_whole(minus, -1));
    let a = spec_entry(m, 0, 0);
    let b = spec_entry(m, 0, 1);
    let c = spec_entry(m, 0, 2);
    let d = spec_entry(m, 1, 0);
    let e = spec_entry(m, 1, 1);
    let f = spec_entry(m, 1, 2);
    let g = spec_entry(m, 2, 0);
    let h = spec_entry(m, 2, 1);
    let i = spec_entry(m, 2, 2);
    assert(spec_is_whole(m.at(0, 0), a) && -512 <= a <= 512);
    assert(spec_is_whole(m.at(0, 1), b) && -512 <= b <= 512);
    assert(spec_is_whole(m.at(0, 2), c) && -512 <= c <= 512);
    assert(spec_is_whole(m.at(1, 0), d) && -512 <= d <= 512);
    assert(spec_is_whole(m.at(1, 1), e) && -512 <= e <= 512);
    assert(spec_is_whole(m.at(1, 2), f) && -512 <= f <= 512);
    assert(spec_is_whole(m.at(2, 0), g) && -512 <= g <= 512);
    assert(spec_is_whole(m.at(2, 1), h) && -512 <= h <= 512);
    assert(spec_is_whole(m.at(2, 2), i) && -512 <= i <= 512);
    lemma_whole_minor(plus, m.at(1, 1), m.at(2, 2), m.at(1, 2), m.at(2, 1), 1, e, i, f, h);
    lemma_whole_minor(minus, m.at(1, 0), m.at(2, 2), m.at(1, 2), m.at(2, 0), -1, d, i, f, g);
    lemma_whole_minor(plus, m.at(1, 0), m.at(2, 1), m.at(1, 1), m.at(2, 0), 1, d, h, e, g);
    let c0 = m.spec_sub_factor(0, 0);
    let c1 = m.spec_sub_factor(0, 1);
    let c2 = m.spec_sub_factor(0, 2);
    let w0 = 1 * (e * i - f * h);
    let w1 = -1 * (d * i - f * g);
    let w2 = 1 * (d * h - e * g);
    assert(spec_is_whole(c0, w0));
    assert(spec_is_whole(c1, w1));
    assert(spec_is_whole(c2, w2));
    assert(-0x1000_0000 <= a * w0 <= 0x1000_0000) by (nonlinear_arith)
        requires
            -512 <= a <= 512,
            -0x8_0000 <= w0 <= 0x8_0000,
    ;
    assert(-0x1000_0000 <= b * w1 <= 0x1000_0000) by (nonlinear_arith)
        requires
            -512 <= b <= 512,
            -0x8_0000 <= w1 <= 0x8_0000,
    ;
    assert(-0x1000_0000 <= c * w2 <= 0x1000_0000) by (nonlinear_arith)
        requires
            -512 <= c <= 512,
            -0x8_0000 <= w2 <= 0x8_0000,
    ;
    lemma_whole_product(m.at(0, 0), c0, a, w0, 0x1000_0000);
    lemma_whole_product(m.at(0, 1), c1, b, w1, 0x1000_0000);
    lemma_whole_product(m.at(0, 2), c2, c, w2, 0x1000_0000);
    let t0 = m.at(0, 0).spec_mul(c0);
    let t1 = m.at(0, 1).spec_mul(c1);
    let t2 = m.at(0, 2).spec_mul(c2);
    assert(m.spec_determinant() == t0.spec_add(t1).spec_add(t2));
    assert(t0.spec_add(t1).spec_add(t2).raw == (a * w0 + b * w1 + c * w2) * SCALE)
        by (nonlinear_arith)
        requires
            t0.raw == (a * w0) * SCALE,
            t1.raw == (b * w1) * SCALE,
            t2.raw == (c * w2) * SCALE,
            -0x1000_0000 <= a * w0 <= 0x1000_0000,
            -0x1000_0000 <= b * w1 <= 0x1000_0000,
            -0x1000_0000 <= c * w2 <= 0x1000_0000,
            SCALE == 0x1_0000_0000,
            t0.spec_add(t1).raw == crate::fixed::saturate(t0.raw + t1.raw),
            t0.spec_add(t1).spec_add(t2).raw == crate::fixed::saturate(
                t0.spec_add(t1).raw + t2.raw,
            ),
    ;
    assert(a * w0 + b * w1 + c * w2 == spec_whole_determinant(m)) by (nonlinear_arith)
        requires
            w0 == 1 * (e * i - f * h),
            w1 == -1 * (d * i - f * g),
            w2 == 1 * (d * h - e * g),
            spec_whole_determinant(m) == a * (e * i - f * h) - b * (d * i - f * g) + c * (d * h
                - e * g),
    ;
}

/// Whether the rows of a matrix of whole numbers depend on one another with
/// the whole weights `x`, `y` and `z`: the weights are not all zero, and the
/// rows, each times its weight, add up to nothing.
pub open spec fn spec_rows_depend(m: Mat3, x: int, y: int, z: int) -> bool {
    &&& x != 0 || y != 0 || z != 0
    &&& x * spec_entry(m, 0, 0) + y * spec_entry(m, 1, 0) + z * spec_entry(m, 2, 0) == 0
    &&& x * spec_entry(m, 0, 1) + y * spec_entry(m, 1, 1) + z * spec_entry(m, 2, 1) == 0
    &&& x * spec_entry(m, 0, 2) + y * spec_entry(m, 1, 2) + z * spec_entry(m, 2, 2) == 0
}

/// A factor that is not zero can be struck from a product that is zero.
proof fn lemma_zero_product(x: int, t: int)
    requires
        x != 0,
        x * t == 0,
    ensures
        t == 0,
{
    assert(t == 0) by (nonlinear_arith)
        requires
            x != 0,
            x * t == 0,
    ;
}

/// A row expanded along the minors of the two other rows, when it is one of
/// those two rows itself, gives zero.
pub proof fn lemma_repeated_row(d: int, e: int, f: int, g: int, h: int, i: int)
    ensures
        d * (e * i - f * h) - e * (d * i - f * g) + f * (d * h - e * g) == 0,
        g * (e * i - f * h) - h * (d * i - f * g) + i * (d * h - e * g) == 0,
{
    assert(d * (e * i - f * h) == d * (e * i) - d * (f * h)) by (nonlinear_arith);
    assert(e * (d * i - f * g) == e * (d * i) - e * (f * g)) by (nonlinear_arith);
    assert(f * (d * h - e * g) == f * (d * h) - f * (e * g)) by (nonlinear_arith);
    assert(d * (e * i) == e * (d * i)) by (nonlinear_arith);
    assert(d * (f * h) == f * (d * h)) by (nonlinear_arith);
    assert(e * (f * g) == f * (e * g)) by (nonlinear_arith);
    assert(g * (e * i - f * h) == g * (e * i) - g * (f * h)) by (nonlinear_arith);
    assert(h * (d * i - f * g) == h * (d * i) - h * (f * g)) by (nonlinear_arith);
    assert(i * (d * h - e * g) == i * (d * h) - i * (e * g)) by (nonlinear_arith);
    assert(g * (e * i) == i * (e * g)) by (nonlinear_arith);
    assert(g * (f * h) == h * (f * g)) by (nonlinear_arith);
    assert(h * (d * i) == i * (d * h)) by (nonlinear_arith);
}

/// A weighted sum times a factor is the weighted sum of the products.
proof fn lemma_weighted_sum_times(x: int, y: int, z: int, a: int, d: int, g: int, m: int)
    ensures
        (x * a + y * d + z * g) * m == x * (a * m) + y * (d * m) + z * (g * m),
{
    let p = x * a;
    let q = y * d;
    let r = z * g;
    assert((p + q + r) * m == p * m + q * m + r * m) by (nonlinear_arith);
    assert(p * m == x * (a * m)) by (nonlinear_arith)
        requires
            p == x * a,
    ;
    assert(q * m == y * (d * m)) by (nonlinear_arith)
        requires
            q == y * d,
    ;
    assert(r * m == z * (g * m)) by (nonlinear_arith)
        requires
            r == z * g,
    ;
}

/// The expansion of a row along three minors is linear in the row.
proof fn lemma_expansion_linear(
    x: int,
    y: int,
    z: int,
    a: int,
    d: int,
    g: int,
    b: int,
    e: int,
    h: int,
    c: int,
    f: int,
    i: int,
    m0: int,
    m1: int,
    m2: int,
)
    ensures
        (x * a + y * d + z * g) * m0 - (x * b + y * e + z * h) * m1 + (x * c + y * f + z * i) * m2
            == x * (a * m0 - b * m1 + c * m2) + y * (d * m0 - e * m1 + f * m2) + z * (g * m0 - h
            * m1 + i * m2),
{
    lemma_weighted_sum_times(x, y, z, a, d, g, m0);
    lemma_weighted_sum_times(x, y, z, b, e, h, m1);
    lemma_weighted_sum_times(x, y, z, c, f, i, m2);
    assert(x * (a * m0 - b * m1 + c * m2) == x * (a * m0) - x * (b * m1) + x * (c * m2))
        by (nonlinear_arith);
    assert(y * (d * m0 - e * m1 + f * m2) == y * (d * m0) - y * (e * m1) + y * (f * m2))
        by (nonlinear_arith);
    assert(z * (g * m0 - h * m1 + i * m2) == z * (g * m0) - z * (h * m1) + z * (i * m2))
        by (nonlinear_arith);
}

/// Over the whole numbers, a first row that the two other rows make up gives
/// the determinant zero.
proof fn lemma_first_row_dependent(
    a: int,
    b: int,
    c: int,
    d: int,
    e: int,
    f: int,
    g: int,
    h: int,
    i: int,
    x: int,
    y: int,
    z: int,
)
    requires
        x != 0,
        x * a + y * d + z * g == 0,
        x * b + y * e + z * h == 0,
        x * c + y * f + z * i == 0,
    ensures
        spec_det(a, b, c, d, e, f, g, h, i) == 0,
{
    let m0 = e * i - f * h;
    let m1 = d * i - f * g;
    let m2 = d * h - e * g;
    let t = spec_det(a, b, c, d, e, f, g, h, i);
    lemma_repeated_row(d, e, f, g, h, i);
    lemma_expansion_linear(x, y, z, a, d, g, b, e, h, c, f, i, m0, m1, m2);
    assert(y * (d * m0 - e * m1 + f * m2) == 0) by (nonlinear_arith)
        requires
            d * m0 - e * m1 + f * m2 == 0,
    ;
    assert(z * (g * m0 - h * m1 + i * m2) == 0) by (nonlinear_arith)
        requires
            g * m0 - h * m1 + i * m2 == 0,
    ;
    assert((x * a + y * d + z * g) * m0 == 0) by (nonlinear_arith)
        requires
            x * a + y * d + z * g == 0,
    ;
    assert((x * b + y * e + z * h) * m1 == 0) by (nonlinear_arith)
        requires
            x * b + y * e + z * h == 0,
    ;
    assert((x * c + y * f + z * i) * m2 == 0) by (nonlinear_arith)
        requires
            x * c + y * f + z * i == 0,
    ;
    assert(x * t == 0);
    lemma_zero_product(x, t);
}

/// The determinant changes its sign when the first row changes places with
/// another, and stays as it is when the rows move round.
pub proof fn lemma_det_rows_moved(
    a: int,
    b: int,
    c: int,
    d: int,
    e: int,
    f: int,
    g: int,
    h: int,
    i: int,
)
    ensures
        spec_det(d, e, f, g, h, i, a, b, c) == spec_det(a, b, c, d, e, f, g, h, i),
        spec_det(g, h, i, a, b, c, d, e, f) == spec_det(a, b, c, d, e, f, g, h, i),
{
    assert(a * (e * i - f * h) == a * (e * i) - a * (f * h)) by (nonlinear_arith);
    assert(b * (d * i - f * g) == b * (d * i) - b * (f * g)) by (nonlinear_arith);
    assert(c * (d * h - e * g) == c * (d * h) - c * (e * g)) by (nonlinear_arith);
    assert(d * (h * c - i * b) == d * (h * c) - d * (i * b)) by (nonlinear_arith);
    assert(e * (g * c - i * a) == e * (g * c) - e * (i * a)) by (nonlinear_arith);
    assert(f * (g * b - h * a) == f * (g * b) - f * (h * a)) by (nonlinear_arith);
    assert(g * (b * f - c * e) == g * (b * f) - g * (c * e)) by (nonlinear_arith);
    assert(h * (a * f - c * d) == h * (a * f) - h * (c * d)) by (nonlinear_arith);
    assert(i * (a * e - b * d) == i * (a * e) - i * (b * d)) by (nonlinear_arith);
    assert(a * (e * i) == e * (i * a) && a * (e * i) == i * (a * e)) by (nonlinear_arith);
    assert(a * (f * h) == f * (h * a) && a * (f * h) == h * (a * f)) by (nonlinear_arith);
    assert(b * (d * i) == d * (i * b) && b * (d * i) == i * (b * d)) by (nonlinear_arith);
    assert(b * (f * g) == f * (g * b) && b * (f * g) == g * (b * f)) by (nonlinear_arith);
    assert(c * (d * h) == d * (h * c) && c * (d * h) == h * (c * d)) by (nonlinear_arith);
    assert(c * (e * g) == e * (g * c) && c * (e * g) == g * (c * e)) by (nonlinear_arith);
}

/// Over the whole numbers, rows that depend on one another give the
/// determinant zero.
proof fn lemma_dependent_det(
    a: int,
    b: int,
    c: int,
    d: int,
    e: int,
    f: int,
    g: int,
    h: int,
    i: int,
    x: int,
    y: int,
    z: int,
)
    requires
        x != 0 || y != 0 || z != 0,
        x * a + y * d + z * g == 0,
        x * b + y * e + z * h == 0,
        x * c + y * f + z * i == 0,
    ensures
        spec_det(a, b, c, d, e, f, g, h, i) == 0,
{
    lemma_det_rows_moved(a, b, c, d, e, f, g, h, i);
    if x != 0 {
        lemma_first_row_dependent(a, b, c, d, e, f, g, h, i, x, y, z);
    } else if y != 0 {
        lemma_first_row_dependent(d, e, f, g, h, i, a, b, c, y, z, x);
    } else {
        lemma_first_row_dependent(g, h, i, a, b, c, d, e, f, z, x, y);
    }
}

/// A matrix of whole numbers within the limit whose rows depend on one
/// another has no inverse.
pub proof fn lemma_dependent_rows_have_no_inverse(m: Mat3, x: int, y: int, z: int)
    requires
        spec_whole_matrix(m),
        spec_rows_depend(m, x, y, z),
    ensures
        m.spec_invert() is None,
{
    lemma_whole_determinant(m);
    lemma_dependent_det(
        spec_entry(m, 0, 0),
        spec_entry(m, 0, 1),
        spec_entry(m, 0, 2),
        spec_entry(m, 1, 0),
        spec_entry(m, 1, 1),
        spec_entry(m, 1, 2),
        spec_entry(m, 2, 0),
        spec_entry(m, 2, 1),
        spec_entry(m, 2, 2),
        x,
        y,
        z,
    );
}

} // verus!

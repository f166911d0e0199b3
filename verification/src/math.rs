//! Three-dimensional vectors and 3x3 matrices over fixed-point scalars.
//!
//! Every operation is built from the scalar operations of `Fixed`, one
//! rounding per scalar operation, in the order in which the formulas below
//! are written.

pub mod inverse;
pub mod round_trip;
pub mod unit;
pub mod whole;

use crate::fixed::{is_isqrt, isqrt, isqrt_u128, lemma_isqrt_is_root, lemma_isqrt_unique, saturate, Fixed};
use core::ops::{AddAssign, DivAssign, MulAssign, Neg, SubAssign};
use vstd::prelude::*;

verus! {

/// A vector of three scalars.
#[derive(Clone, Copy, Debug, PartialEq, Eq, Structural)]
pub struct Vec3 {
    pub x: Fixed,
    pub y: Fixed,
    pub z: Fixed,
}

impl Vec3 {
    /// The coordinate-wise sum.
    pub open spec fn spec_add(self, other: Vec3) -> Vec3 {
        Vec3 {
            x: self.x.spec_add(other.x),
            y: self.y.spec_add(other.y),
            z: self.z.spec_add(other.z),
        }
    }

    /// The coordinate-wise difference.
    pub open spec fn spec_sub(self, other: Vec3) -> Vec3 {
        Vec3 {
            x: self.x.spec_sub(other.x),
            y: self.y.spec_sub(other.y),
            z: self.z.spec_sub(other.z),
        }
    }

    /// The vector with every coordinate multiplied by `s`.
    pub open spec fn spec_scale(self, s: Fixed) -> Vec3 {
        Vec3 { x: s.spec_mul(self.x), y: s.spec_mul(self.y), z: s.spec_mul(self.z) }
    }

    /// The vector with every coordinate divided by `s` (`s` nonzero).
    pub open spec fn spec_div(self, s: Fixed) -> Vec3
        recommends
            s.raw != 0,
    {
        Vec3 { x: self.x.spec_div(s), y: self.y.spec_div(s), z: self.z.spec_div(s) }
    }

    /// Whether the sum of the two vectors fits in every coordinate.
    pub open spec fn spec_sum_fits(self, other: Vec3) -> bool {
        self.x.spec_sum_fits(other.x) && self.y.spec_sum_fits(other.y) && self.z.spec_sum_fits(
            other.z,
        )
    }

    /// Whether scaling by `s` is exact in every coordinate.
    pub open spec fn spec_scales_exactly(self, s: Fixed) -> bool {
        s.spec_product_exact(self.x) && s.spec_product_exact(self.y) && s.spec_product_exact(
            self.z,
        )
    }

    /// Whether scaling by `s` fits in every coordinate.
    pub open spec fn spec_scale_fits(self, s: Fixed) -> bool {
        s.spec_product_fits(self.x) && s.spec_product_fits(self.y) && s.spec_product_fits(self.z)
    }

    /// The dot product `x*x' + y*y' + z*z'`, summed from the left.
    pub open spec fn spec_dot(self, other: Vec3) -> Fixed {
        self.x.spec_mul(other.x).spec_add(self.y.spec_mul(other.y)).spec_add(
            self.z.spec_mul(other.z),
        )
    }

    /// The squared Euclidean norm.
    pub open spec fn spec_norm2(self) -> Fixed {
        self.spec_dot(self)
    }

    /// The sum of the exact squares of the raw coordinates.
    pub open spec fn spec_square_sum(self) -> int {
        self.x.raw * self.x.raw + self.y.raw * self.y.raw + self.z.raw * self.z.raw
    }

    /// The Euclidean norm: the square root of the exact sum of the squares,
    /// rounded down to the grid once, and saturated. It is zero for the zero
    /// vector only.
    #[verifier::opaque]
    pub open spec fn spec_norm(self) -> Fixed {
        Fixed { raw: saturate(isqrt(self.spec_square_sum())) }
    }

    /// Whether the vector can be normalized: its norm is not zero, which is
    /// to say that the vector is not the zero vector.
    pub open spec fn spec_normalizable(self) -> bool {
        self.spec_norm().raw != 0
    }

    /// The zero vector.
    pub open spec fn spec_zero() -> Vec3 {
        Vec3 { x: Fixed { raw: 0 }, y: Fixed { raw: 0 }, z: Fixed { raw: 0 } }
    }

    /// The direction of the vector: the vector divided by its norm; the
    /// zero vector, which has no direction, stays as it is.
    pub open spec fn spec_direction(self) -> Vec3 {
        if self.spec_normalizable() {
            self.spec_normalize()
        } else {
            Vec3::spec_zero()
        }
    }

    /// The vector divided by its norm (for a normalizable vector).
    pub open spec fn spec_normalize(self) -> Vec3
        recommends
            self.spec_normalizable(),
    {
        self.spec_div(self.spec_norm())
    }

    /// The cross product `self x other`, not normalized.
    pub open spec fn spec_cross_forward(self, other: Vec3) -> Vec3 {
        Vec3 {
            x: self.y.spec_mul(other.z).spec_sub(self.z.spec_mul(other.y)),
            y: self.z.spec_mul(other.x).spec_sub(self.x.spec_mul(other.z)),
            z: self.x.spec_mul(other.y).spec_sub(self.y.spec_mul(other.x)),
        }
    }

    /// The cross product `other x self`, not normalized.
    pub open spec fn spec_cross_backward(self, other: Vec3) -> Vec3 {
        Vec3 {
            x: self.z.spec_mul(other.y).spec_sub(self.y.spec_mul(other.z)),
            y: self.x.spec_mul(other.z).spec_sub(self.z.spec_mul(other.x)),
            z: self.y.spec_mul(other.x).spec_sub(self.x.spec_mul(other.y)),
        }
    }

    /// Whether both cross products of the two vectors can be normalized.
    pub open spec fn spec_cross_defined(self, other: Vec3) -> bool {
        self.spec_cross_forward(other).spec_normalizable() && self.spec_cross_backward(
            other,
        ).spec_normalizable()
    }

    /// The vector with the given coordinates.
    pub fn new(x: Fixed, y: Fixed, z: Fixed) -> (v: Vec3)
        ensures
            v == (Vec3 { x, y, z }),
    {
        Vec3 { x, y, z }
    }

    /// The squared Euclidean norm; never negative.
    pub fn norm2(&self) -> (r: Fixed)
        ensures
            r == self.spec_norm2(),
            r.raw >= 0,
    {
        proof {
            lemma_norm2_nonnegative(*self);
        }
        self.x * self.x + self.y * self.y + self.z * self.z
    }

    /// The Euclidean norm, from the exact squares of the coordinates: the
    /// largest scalar whose square does not exceed their sum.
    pub fn norm(&self) -> (r: Fixed)
        ensures
            r == self.spec_norm(),
            r.raw >= 0,
            r.raw == 0 <==> *self == Vec3::spec_zero(),
    {
        let x: u128 = magnitude(self.x);
        let y: u128 = magnitude(self.y);
        let z: u128 = magnitude(self.z);
        assert(x * x <= 0x4000_0000_0000_0000_0000_0000_0000_0000int && x * x == self.x.raw
            * self.x.raw) by (nonlinear_arith)
            requires
                x == self.x.raw || x == -self.x.raw,
                0 <= x <= 0x8000_0000_0000_0000int,
        ;
        assert(y * y <= 0x4000_0000_0000_0000_0000_0000_0000_0000int && y * y == self.y.raw
            * self.y.raw) by (nonlinear_arith)
            requires
                y == self.y.raw || y == -self.y.raw,
                0 <= y <= 0x8000_0000_0000_0000int,
        ;
        assert(z * z <= 0x4000_0000_0000_0000_0000_0000_0000_0000int && z * z == self.z.raw
            * self.z.raw) by (nonlinear_arith)
            requires
                z == self.z.raw || z == -self.z.raw,
                0 <= z <= 0x8000_0000_0000_0000int,
        ;
        let sum: u128 = x * x + y * y + z * z;
        let root: u128 = isqrt_u128(sum);
        proof {
            reveal(Vec3::spec_norm);
            lemma_isqrt_unique(self.spec_square_sum(), root as int);
            lemma_normalizable_iff_nonzero(*self);
        }
        if root > 0x7fff_ffff_ffff_ffff {
            Fixed { raw: i64::MAX }
        } else {
            Fixed { raw: root as i64 }
        }
    }

    /// The direction of the vector: the vector divided by its norm; the
    /// zero vector, which has no direction, stays as it is.
    pub fn direction(&self) -> (r: Vec3)
        ensures
            r == self.spec_direction(),
    {
        if self.normalizable() {
            self.normalize()
        } else {
            Vec3 { x: Fixed::zero(), y: Fixed::zero(), z: Fixed::zero() }
        }
    }

    /// Whether `normalize` may be called: the vector is not the zero vector.
    pub fn normalizable(&self) -> (b: bool)
        ensures
            b == self.spec_normalizable(),
    {
        self.norm().raw != 0
    }

    /// The vector divided by its norm. The zero vector has no direction: the
    /// caller has to rule it out. The result has unit norm within 1/100000
    /// for every vector with a norm of 2^-15 or more and no coordinate
    /// beyond 2^29; a vector of a few units only is normalized coarsely.
    pub fn normalize(&self) -> (r: Vec3)
        requires
            self.spec_normalizable(),
        ensures
            r == self.spec_normalize(),
    {
        let norm = self.norm();
        Vec3 { x: self.x / norm, y: self.y / norm, z: self.z / norm }
    }

    /// The dot product `x*x' + y*y' + z*z'`, summed from the left.
    pub fn dot(&self, other: &Vec3) -> (r: Fixed)
        ensures
            r == self.spec_dot(*other),
    {
        self.x * other.x + self.y * other.y + self.z * other.z
    }

    /// The two cross products `self x other` and `other x self`, not
    /// normalized: the two candidates for a normal, before they are scaled.
    pub fn cross_unnormalized(&self, other: &Vec3) -> (r: [Vec3; 2])
        ensures
            r[0] == self.spec_cross_forward(*other),
            r[1] == self.spec_cross_backward(*other),
    {
        [
            Vec3 {
                x: self.y * other.z - self.z * other.y,
                y: self.z * other.x - self.x * other.z,
                z: self.x * other.y - self.y * other.x,
            },
            Vec3 {
                x: self.z * other.y - self.y * other.z,
                y: self.x * other.z - self.z * other.x,
                z: self.y * other.x - self.x * other.y,
            },
        ]
    }

    /// The two unit normals of the plane spanned by `self` and `other`:
    /// `self x other` and `other x self`, each normalized.
    pub fn cross(&self, other: &Vec3) -> (r: [Vec3; 2])
        requires
            self.spec_cross_defined(*other),
        ensures
            r[0] == self.spec_cross_forward(*other).spec_normalize(),
            r[1] == self.spec_cross_backward(*other).spec_normalize(),
    {
        let raw = self.cross_unnormalized(other);
        [raw[0].normalize(), raw[1].normalize()]
    }
}

/// The magnitude of a raw count, which fits in 128 bits whatever the count.
fn magnitude(a: Fixed) -> (m: u128)
    ensures
        m == a.raw || m == -a.raw,
        0 <= m <= 0x8000_0000_0000_0000u128,
{
    if a.raw >= 0 {
        a.raw as u128
    } else {
        (-(a.raw as i128)) as u128
    }
}

/// A vector can be normalized exactly when it is not the zero vector.
pub proof fn lemma_normalizable_iff_nonzero(v: Vec3)
    ensures
        v.spec_normalizable() <==> v != Vec3::spec_zero(),
        v.spec_norm().raw >= 0,
{
    reveal(Vec3::spec_norm);
    let q = v.spec_square_sum();
    assert(v.x.raw * v.x.raw >= 0 && v.y.raw * v.y.raw >= 0 && v.z.raw * v.z.raw >= 0)
        by (nonlinear_arith);
    lemma_isqrt_is_root(q);
    let r = isqrt(q);
    if v == Vec3::spec_zero() {
        assert(q == 0);
        assert(r == 0) by (nonlinear_arith)
            requires
                r >= 0,
                r * r <= q,
                q == 0,
        ;
    } else {
        assert(q >= 1) by (nonlinear_arith)
            requires
                q == v.x.raw * v.x.raw + v.y.raw * v.y.raw + v.z.raw * v.z.raw,
                v.x.raw != 0 || v.y.raw != 0 || v.z.raw != 0,
        ;
        assert(r >= 1) by (nonlinear_arith)
            requires
                r >= 0,
                q < (r + 1) * (r + 1),
                q >= 1,
        ;
    }
}

/// The norm of a vector along the z axis is the magnitude of its one
/// coordinate.
pub proof fn lemma_axis_norm(v: Vec3)
    requires
        v.x.raw == 0,
        v.y.raw == 0,
        v.z.raw > i64::MIN,
    ensures
        v.spec_norm().raw == if v.z.raw >= 0 {
            v.z.raw as int
        } else {
            -v.z.raw
        },
{
    reveal(Vec3::spec_norm);
    let k: int = if v.z.raw >= 0 {
        v.z.raw as int
    } else {
        -v.z.raw
    };
    assert(v.spec_square_sum() == k * k) by (nonlinear_arith)
        requires
            v.spec_square_sum() == v.x.raw * v.x.raw + v.y.raw * v.y.raw + v.z.raw * v.z.raw,
            v.x.raw == 0,
            v.y.raw == 0,
            k == v.z.raw || k == -v.z.raw,
    ;
    assert(k * k < (k + 1) * (k + 1)) by (nonlinear_arith)
        requires
            k >= 0,
    ;
    lemma_isqrt_unique(k * k, k);
}

/// The vector with the given whole coordinates.
pub open spec fn spec_whole(x: int, y: int, z: int) -> Vec3 {
    Vec3 { x: Fixed::spec_from_int(x), y: Fixed::spec_from_int(y), z: Fixed::spec_from_int(z) }
}

/// A squared norm is a saturated sum of squares, so it is never negative.
pub proof fn lemma_norm2_nonnegative(v: Vec3)
    ensures
        v.spec_norm2().raw >= 0,
{
    lemma_square_nonnegative(v.x);
    lemma_square_nonnegative(v.y);
    lemma_square_nonnegative(v.z);
}

/// The square of a scalar is never negative.
pub proof fn lemma_square_nonnegative(a: Fixed)
    ensures
        a.spec_mul(a).raw >= 0,
{
    reveal(Fixed::spec_mul);
    assert(a.raw * a.raw >= 0) by (nonlinear_arith);
    assert((a.raw * a.raw) / (crate::fixed::SCALE as int) >= 0) by (nonlinear_arith)
        requires
            a.raw * a.raw >= 0,
            crate::fixed::SCALE == 0x1_0000_0000,
    ;
}

impl core::ops::Add<Vec3> for Vec3 {
    type Output = Vec3;

    /// The sum, coordinate by coordinate.
    fn add(self, other: Vec3) -> (r: Vec3)
        ensures
            r == self.spec_add(other),
    {
        Vec3 { x: self.x + other.x, y: self.y + other.y, z: self.z + other.z }
    }
}

impl vstd::std_specs::ops::AddSpecImpl<Vec3> for Vec3 {
    open spec fn obeys_add_spec() -> bool {
        true
    }

    open spec fn add_req(self, other: Vec3) -> bool {
        true
    }

    open spec fn add_spec(self, other: Vec3) -> Vec3 {
        self.spec_add(other)
    }
}

impl AddAssign<Vec3> for Vec3 {
    /// Adds `other` to the vector.
    fn add_assign(&mut self, other: Vec3)
        ensures
            *final(self) == old(self).spec_add(other),
    {
        self.x = self.x + other.x;
        self.y = self.y + other.y;
        self.z = self.z + other.z;
    }
}

impl core::ops::Sub<Vec3> for Vec3 {
    type Output = Vec3;

    /// The difference, coordinate by coordinate.
    fn sub(self, other: Vec3) -> (r: Vec3)
        ensures
            r == self.spec_sub(other),
    {
        Vec3 { x: self.x - other.x, y: self.y - other.y, z: self.z - other.z }
    }
}

impl vstd::std_specs::ops::SubSpecImpl<Vec3> for Vec3 {
    open spec fn obeys_sub_spec() -> bool {
        true
    }

    open spec fn sub_req(self, other: Vec3) -> bool {
        true
    }

    open spec fn sub_spec(self, other: Vec3) -> Vec3 {
        self.spec_sub(other)
    }
}

impl SubAssign<Vec3> for Vec3 {
    /// Takes `other` from the vector.
    fn sub_assign(&mut self, other: Vec3)
        ensures
            *final(self) == old(self).spec_sub(other),
    {
        self.x = self.x - other.x;
        self.y = self.y - other.y;
        self.z = self.z - other.z;
    }
}

impl core::ops::Mul<Vec3> for Fixed {
    type Output = Vec3;

    /// The vector with every coordinate multiplied by the scalar.
    fn mul(self, other: Vec3) -> (r: Vec3)
        ensures
            r == other.spec_scale(self),
    {
        Vec3 { x: self * other.x, y: self * other.y, z: self * other.z }
    }
}

impl vstd::std_specs::ops::MulSpecImpl<Vec3> for Fixed {
    open spec fn obeys_mul_spec() -> bool {
        true
    }

    open spec fn mul_req(self, other: Vec3) -> bool {
        true
    }

    open spec fn mul_spec(self, other: Vec3) -> Vec3 {
        other.spec_scale(self)
    }
}

impl MulAssign<Fixed> for Vec3 {
    /// Multiplies every coordinate by `rhs`.
    fn mul_assign(&mut self, rhs: Fixed)
        ensures
            *final(self) == old(self).spec_scale(rhs),
    {
        proof {
            lemma_mul_commutes(self.x, rhs);
            lemma_mul_commutes(self.y, rhs);
            lemma_mul_commutes(self.z, rhs);
        }
        self.x = self.x * rhs;
        self.y = self.y * rhs;
        self.z = self.z * rhs;
    }
}

impl core::ops::Div<Fixed> for Vec3 {
    type Output = Vec3;

    /// The vector with every coordinate divided by a scalar that is not
    /// zero.
    fn div(self, rhs: Fixed) -> (r: Vec3)
        ensures
            r == self.spec_div(rhs),
    {
        Vec3 { x: self.x / rhs, y: self.y / rhs, z: self.z / rhs }
    }
}

impl vstd::std_specs::ops::DivSpecImpl<Fixed> for Vec3 {
    open spec fn obeys_div_spec() -> bool {
        true
    }

    open spec fn div_req(self, rhs: Fixed) -> bool {
        rhs.raw != 0
    }

    open spec fn div_spec(self, rhs: Fixed) -> Vec3 {
        self.spec_div(rhs)
    }
}

impl DivAssign<Fixed> for Vec3 {
    /// Divides every coordinate by `rhs`, which is not zero.
    fn div_assign(&mut self, rhs: Fixed)
        requires
            rhs.raw != 0,
        ensures
            *final(self) == old(self).spec_div(rhs),
    {
        self.x = self.x / rhs;
        self.y = self.y / rhs;
        self.z = self.z / rhs;
    }
}

/// Vector addition does not depend on the order of the summands.
pub proof fn lemma_add_commutes(u: Vec3, v: Vec3)
    ensures
        u.spec_add(v) == v.spec_add(u),
{
}

/// Vector addition may be grouped either way, as long as neither of the two
/// inner sums `u + v` and `v + w` is cut off.
pub proof fn lemma_add_associates(u: Vec3, v: Vec3, w: Vec3)
    requires
        u.spec_sum_fits(v),
        v.spec_sum_fits(w),
    ensures
        u.spec_add(v).spec_add(w) == u.spec_add(v.spec_add(w)),
{
}

/// Scaling distributes over a sum of vectors that fits, when the products of
/// the scalar with every coordinate are exact.
pub proof fn lemma_scale_distributes(s: Fixed, u: Vec3, v: Vec3)
    requires
        u.spec_sum_fits(v),
        u.spec_scales_exactly(s),
        v.spec_scales_exactly(s),
    ensures
        u.spec_add(v).spec_scale(s) == u.spec_scale(s).spec_add(v.spec_scale(s)),
{
    crate::fixed::lemma_mul_distributes(s, u.x, v.x);
    crate::fixed::lemma_mul_distributes(s, u.y, v.y);
    crate::fixed::lemma_mul_distributes(s, u.z, v.z);
}

/// Whatever the scalar, scaling distributes over a sum of vectors up to one
/// unit in every coordinate, as long as the sum and the products fit.
pub proof fn lemma_scale_nearly_distributes(s: Fixed, u: Vec3, v: Vec3)
    requires
        u.spec_sum_fits(v),
        u.spec_scale_fits(s),
        v.spec_scale_fits(s),
        u.spec_add(v).spec_scale_fits(s),
    ensures
        spec_within_one(
            u.spec_add(v).spec_scale(s).x,
            u.spec_scale(s).x.raw + v.spec_scale(s).x.raw,
        ),
        spec_within_one(
            u.spec_add(v).spec_scale(s).y,
            u.spec_scale(s).y.raw + v.spec_scale(s).y.raw,
        ),
        spec_within_one(
            u.spec_add(v).spec_scale(s).z,
            u.spec_scale(s).z.raw + v.spec_scale(s).z.raw,
        ),
{
    crate::fixed::lemma_mul_nearly_distributes(s, u.x, v.x);
    crate::fixed::lemma_mul_nearly_distributes(s, u.y, v.y);
    crate::fixed::lemma_mul_nearly_distributes(s, u.z, v.z);
}

/// Whether the scalar is within one unit of the raw count `wanted`.
pub open spec fn spec_within_one(a: Fixed, wanted: int) -> bool {
    -1 <= a.raw - wanted <= 1
}

/// Scalar multiplication does not depend on the order of its factors.
pub proof fn lemma_mul_commutes(a: Fixed, b: Fixed)
    ensures
        a.spec_mul(b) == b.spec_mul(a),
{
    reveal(Fixed::spec_mul);
    assert(a.raw * b.raw == b.raw * a.raw) by (nonlinear_arith);
}

/// A line: a point on it and its direction, kept normalized.
pub struct Line {
    pub origin: Vec3,
    pub direction: Vec3,
}

impl Line {
    /// The point at parameter `t`: `origin + t * direction`.
    pub open spec fn spec_point_at(self, t: Fixed) -> Vec3 {
        self.origin.spec_add(self.direction.spec_scale(t))
    }

    /// The line through `origin` along `direction`, which is normalized here
    /// and so must have a norm that is not zero.
    pub fn new(origin: Vec3, direction: Vec3) -> (l: Line)
        requires
            direction.spec_normalizable(),
        ensures
            l.origin == origin,
            l.direction == direction.spec_normalize(),
    {
        Line { origin, direction: direction.normalize() }
    }

    /// The point at parameter `t`: `origin + t * direction`.
    pub fn point_at(&self, t: Fixed) -> (p: Vec3)
        ensures
            p == self.spec_point_at(t),
    {
        self.origin + t * self.direction
    }
}

/// An angle, given by its sine and its cosine.
#[derive(Clone, Copy, Debug, PartialEq, Eq, Structural)]
pub struct Angle {
    pub sin: Fixed,
    pub cos: Fixed,
}

impl Angle {
    /// The angle with the given sine and cosine.
    pub fn new(sin: Fixed, cos: Fixed) -> (a: Angle)
        ensures
            a == (Angle { sin, cos }),
    {
        Angle { sin, cos }
    }
}

/// A 3x3 matrix of scalars, row by row.
#[derive(Clone, Copy, Debug, PartialEq, Eq)]
pub struct Mat3 {
    pub coords: [[Fixed; 3]; 3],
}

/// The two indices among 0, 1, 2 that are left when `i` is struck out; an
/// index past 1 counts as 2.
pub open spec fn spec_others(i: int) -> (int, int) {
    if i == 0 {
        (1, 2)
    } else if i == 1 {
        (0, 2)
    } else {
        (0, 1)
    }
}

/// Whether `a` and `b` differ by at most `epsilon`.
pub open spec fn spec_close(a: Fixed, b: Fixed, epsilon: Fixed) -> bool {
    a.spec_sub(b).spec_abs().raw <= epsilon.raw
}

fn close(a: Fixed, b: Fixed, epsilon: Fixed) -> (r: bool)
    ensures
        r == spec_close(a, b, epsilon),
{
    (a - b).abs().raw <= epsilon.raw
}

impl Mat3 {
    /// The entry in row `i`, column `j`.
    pub open spec fn at(self, i: int, j: int) -> Fixed {
        self.coords[i][j]
    }

    /// Row `i` as a vector.
    pub open spec fn spec_row(self, i: int) -> Vec3 {
        Vec3 { x: self.at(i, 0), y: self.at(i, 1), z: self.at(i, 2) }
    }

    /// Column `j` as a vector.
    pub open spec fn spec_col(self, j: int) -> Vec3 {
        Vec3 { x: self.at(0, j), y: self.at(1, j), z: self.at(2, j) }
    }

    /// The matrix with the given rows.
    pub open spec fn spec_from_rows(a: Vec3, b: Vec3, c: Vec3) -> Mat3 {
        Mat3 { coords: [[a.x, a.y, a.z], [b.x, b.y, b.z], [c.x, c.y, c.z]] }
    }

    /// The matrix with the given columns.
    pub open spec fn spec_from_cols(a: Vec3, b: Vec3, c: Vec3) -> Mat3 {
        Mat3 { coords: [[a.x, b.x, c.x], [a.y, b.y, c.y], [a.z, b.z, c.z]] }
    }

    /// The entry-wise sum.
    pub open spec fn spec_add(self, other: Mat3) -> Mat3 {
        Mat3::spec_from_rows(
            self.spec_row(0).spec_add(other.spec_row(0)),
            self.spec_row(1).spec_add(other.spec_row(1)),
            self.spec_row(2).spec_add(other.spec_row(2)),
        )
    }

    /// The entry-wise difference.
    pub open spec fn spec_sub(self, other: Mat3) -> Mat3 {
        Mat3::spec_from_rows(
            self.spec_row(0).spec_sub(other.spec_row(0)),
            self.spec_row(1).spec_sub(other.spec_row(1)),
            self.spec_row(2).spec_sub(other.spec_row(2)),
        )
    }

    /// Every entry multiplied by `s`.
    pub open spec fn spec_scale(self, s: Fixed) -> Mat3 {
        Mat3::spec_from_rows(
            self.spec_row(0).spec_scale(s),
            self.spec_row(1).spec_scale(s),
            self.spec_row(2).spec_scale(s),
        )
    }

    /// Every entry divided by `s` (`s` nonzero).
    pub open spec fn spec_div(self, s: Fixed) -> Mat3
        recommends
            s.raw != 0,
    {
        Mat3::spec_from_rows(
            self.spec_row(0).spec_div(s),
            self.spec_row(1).spec_div(s),
            self.spec_row(2).spec_div(s),
        )
    }

    /// The matrix applied to a vector: each row dotted with `v`.
    pub open spec fn spec_apply(self, v: Vec3) -> Vec3 {
        Vec3 {
            x: self.spec_row(0).spec_dot(v),
            y: self.spec_row(1).spec_dot(v),
            z: self.spec_row(2).spec_dot(v),
        }
    }

    /// The matrix product: entry `(i, j)` is row `i` of `self` dotted with
    /// column `j` of `other`.
    pub open spec fn spec_mul(self, other: Mat3) -> Mat3 {
        Mat3::spec_from_cols(
            self.spec_apply(other.spec_col(0)),
            self.spec_apply(other.spec_col(1)),
            self.spec_apply(other.spec_col(2)),
        )
    }

    /// The matrix mirrored at its diagonal.
    pub open spec fn spec_transpose(self) -> Mat3 {
        Mat3::spec_from_rows(self.spec_col(0), self.spec_col(1), self.spec_col(2))
    }

    /// Whether every entry differs from that of `other` by at most `epsilon`.
    pub open spec fn spec_equals(self, other: Mat3, epsilon: Fixed) -> bool {
        forall|i: int, j: int|
            0 <= i < 3 && 0 <= j < 3 ==> spec_close(
                #[trigger] self.at(i, j),
                other.at(i, j),
                epsilon,
            )
    }

    /// The cofactor of entry `(row, col)`: the 2x2 minor left when its row and
    /// column are struck out, with the sign `(-1)^(row + col)`.
    pub open spec fn spec_sub_factor(self, row: int, col: int) -> Fixed {
        let r = spec_others(row);
        let c = spec_others(col);
        let sign = if (row + col) % 2 == 0 {
            Fixed::spec_from_int(1)
        } else {
            Fixed::spec_from_int(-1)
        };
        sign.spec_mul(
            self.at(r.0, c.0).spec_mul(self.at(r.1, c.1)).spec_sub(
                self.at(r.0, c.1).spec_mul(self.at(r.1, c.0)),
            ),
        )
    }

    /// The matrix of cofactors.
    pub open spec fn spec_cofactors(self) -> Mat3 {
        Mat3 {
            coords: [
                [self.spec_sub_factor(0, 0), self.spec_sub_factor(0, 1), self.spec_sub_factor(0, 2)],
                [self.spec_sub_factor(1, 0), self.spec_sub_factor(1, 1), self.spec_sub_factor(1, 2)],
                [self.spec_sub_factor(2, 0), self.spec_sub_factor(2, 1), self.spec_sub_factor(2, 2)],
            ],
        }
    }

    /// The determinant, expanded along the first row.
    pub open spec fn spec_determinant(self) -> Fixed {
        self.spec_row(0).spec_dot(self.spec_cofactors().spec_row(0))
    }

    /// The inverse: the transposed cofactor matrix divided by the
    /// determinant; none when the determinant is exactly zero.
    pub open spec fn spec_invert(self) -> Option<Mat3> {
        if self.spec_determinant().raw == 0 {
            None
        } else {
            Some(self.spec_cofactors().spec_transpose().spec_div(self.spec_determinant()))
        }
    }

    /// The matrix with the given rows.
    pub fn new(coords: [[Fixed; 3]; 3]) -> (m: Mat3)
        ensures
            m.coords == coords,
    {
        Mat3 { coords }
    }

    /// The matrix whose columns are `a`, `b` and `c`.
    pub fn from_cols(a: &Vec3, b: &Vec3, c: &Vec3) -> (m: Mat3)
        ensures
            m == Mat3::spec_from_cols(*a, *b, *c),
    {
        Mat3 { coords: [[a.x, b.x, c.x], [a.y, b.y, c.y], [a.z, b.z, c.z]] }
    }

    /// The matrix whose rows are `a`, `b` and `c`.
    pub fn from_rows(a: &Vec3, b: &Vec3, c: &Vec3) -> (m: Mat3)
        ensures
            m == Mat3::spec_from_rows(*a, *b, *c),
    {
        Mat3 { coords: [[a.x, a.y, a.z], [b.x, b.y, b.z], [c.x, c.y, c.z]] }
    }

    /// Row `i` as a vector.
    pub fn row(&self, i: usize) -> (v: Vec3)
        requires
            i < 3,
        ensures
            v == self.spec_row(i as int),
    {
        Vec3 { x: self.coords[i][0], y: self.coords[i][1], z: self.coords[i][2] }
    }

    /// Column `j` as a vector.
    pub fn col(&self, j: usize) -> (v: Vec3)
        requires
            j < 3,
        ensures
            v == self.spec_col(j as int),
    {
        Vec3 { x: self.coords[0][j], y: self.coords[1][j], z: self.coords[2][j] }
    }

    /// The identity matrix.
    pub fn identity() -> (m: Mat3)
        ensures
            m == Mat3::spec_from_rows(
                Vec3 { x: Fixed::spec_from_int(1), y: Fixed::spec_from_int(0), z: Fixed::spec_from_int(0) },
                Vec3 { x: Fixed::spec_from_int(0), y: Fixed::spec_from_int(1), z: Fixed::spec_from_int(0) },
                Vec3 { x: Fixed::spec_from_int(0), y: Fixed::spec_from_int(0), z: Fixed::spec_from_int(1) },
            ),
    {
        let o = Fixed::from_int(0);
        let i = Fixed::from_int(1);
        Mat3 { coords: [[i, o, o], [o, i, o], [o, o, i]] }
    }

    /// The matrix of zeros.
    pub fn zero() -> (m: Mat3)
        ensures
            forall|i: int, j: int| 0 <= i < 3 && 0 <= j < 3 ==> (#[trigger] m.at(i, j)).raw == 0,
    {
        let o = Fixed::from_int(0);
        Mat3 { coords: [[o, o, o], [o, o, o], [o, o, o]] }
    }

    /// Whether the two matrices agree entry by entry within `epsilon`.
    pub fn equals(&self, other: &Mat3, epsilon: Fixed) -> (r: bool)
        ensures
            r == self.spec_equals(*other, epsilon),
    {
        let mut i: usize = 0;
        while i < 3
            invariant
                i <= 3,
                forall|a: int, b: int|
                    0 <= a < i && 0 <= b < 3 ==> spec_close(
                        #[trigger] self.at(a, b),
                        other.at(a, b),
                        epsilon,
                    ),
            decreases 3 - i,
        {
            let mut j: usize = 0;
            while j < 3
                invariant
                    i < 3,
                    j <= 3,
                    forall|a: int, b: int|
                        0 <= a < i && 0 <= b < 3 ==> spec_close(
                            #[trigger] self.at(a, b),
                            other.at(a, b),
                            epsilon,
                        ),
                    forall|b: int|
                        0 <= b < j ==> spec_close(
                            #[trigger] self.at(i as int, b),
                            other.at(i as int, b),
                            epsilon,
                        ),
                decreases 3 - j,
            {
                if !close(self.coords[i][j], other.coords[i][j], epsilon) {
                    assert(!spec_close(self.at(i as int, j as int), other.at(i as int, j as int), epsilon));
                    return false;
                }
                j += 1;
            }
            i += 1;
        }
        true
    }

    /// The matrix mirrored at its diagonal.
    pub fn transpose(&self) -> (m: Mat3)
        ensures
            m == self.spec_transpose(),
    {
        Mat3 {
            coords: [
                [self.coords[0][0], self.coords[1][0], self.coords[2][0]],
                [self.coords[0][1], self.coords[1][1], self.coords[2][1]],
                [self.coords[0][2], self.coords[1][2], self.coords[2][2]],
            ],
        }
    }

    /// The cofactor of entry `(row, col)`. An index past 1 counts as 2.
    pub fn sub_factor(&self, row: usize, col: usize) -> (r: Fixed)
        ensures
            r == self.spec_sub_factor(row as int, col as int),
    {
        let row_indices: [usize; 2] = if row == 0 {
            [1, 2]
        } else if row == 1 {
            [0, 2]
        } else {
            [0, 1]
        };
        let col_indices: [usize; 2] = if col == 0 {
            [1, 2]
        } else if col == 1 {
            [0, 2]
        } else {
            [0, 1]
        };
        let even: bool = (row % 2 == 0) == (col % 2 == 0);
        assert(even == ((row + col) % 2 == 0));
        let sign = if even {
            Fixed::from_int(1)
        } else {
            Fixed::from_int(-1)
        };
        sign * (self.coords[row_indices[0]][col_indices[0]] * self.coords[row_indices[1]][col_indices[1]]
            - self.coords[row_indices[0]][col_indices[1]] * self.coords[row_indices[1]][col_indices[0]])
    }

    /// The inverse by cofactors: the transposed cofactor matrix divided by
    /// the determinant, which is expanded along the first row. There is no
    /// inverse exactly when that determinant is zero.
    pub fn invert(&self) -> (r: Option<Mat3>)
        ensures
            r == self.spec_invert(),
            r is None <==> self.spec_determinant().raw == 0,
    {
        let co_matrix = Mat3 {
            coords: [
                [self.sub_factor(0, 0), self.sub_factor(0, 1), self.sub_factor(0, 2)],
                [self.sub_factor(1, 0), self.sub_factor(1, 1), self.sub_factor(1, 2)],
                [self.sub_factor(2, 0), self.sub_factor(2, 1), self.sub_factor(2, 2)],
            ],
        };
        assert(co_matrix == self.spec_cofactors());
        let co_matrix_t = co_matrix.transpose();
        let determinant = self.coords[0][0] * co_matrix_t.coords[0][0] + self.coords[0][1]
            * co_matrix_t.coords[1][0] + self.coords[0][2] * co_matrix_t.coords[2][0];
        if determinant.raw == 0 {
            None
        } else {
            Some(co_matrix_t / determinant)
        }
    }

    /// The rotation about the x axis by `a`.
    pub open spec fn spec_rot_x(a: Angle) -> Mat3 {
        let o = Fixed::spec_from_int(0);
        let i = Fixed::spec_from_int(1);
        Mat3 { coords: [[i, o, o], [o, a.cos, a.sin.spec_neg()], [o, a.sin, a.cos]] }
    }

    /// The rotation about the y axis by `a`.
    pub open spec fn spec_rot_y(a: Angle) -> Mat3 {
        let o = Fixed::spec_from_int(0);
        let i = Fixed::spec_from_int(1);
        Mat3 { coords: [[a.cos, o, a.sin], [o, i, o], [a.sin.spec_neg(), o, a.cos]] }
    }

    /// The rotation about the z axis by `a`.
    pub open spec fn spec_rot_z(a: Angle) -> Mat3 {
        let o = Fixed::spec_from_int(0);
        let i = Fixed::spec_from_int(1);
        Mat3 { coords: [[a.cos, a.sin.spec_neg(), o], [a.sin, a.cos, o], [o, o, i]] }
    }

    /// The rotation about x, then about y, then about z.
    pub open spec fn spec_rot_x_y_z(x: Angle, y: Angle, z: Angle) -> Mat3 {
        Mat3::spec_rot_z(z).spec_mul(Mat3::spec_rot_y(y).spec_mul(Mat3::spec_rot_x(x)))
    }

    /// The rotation about the x axis by `x`, then about the y axis by `y`,
    /// then about the z axis by `z`, as one matrix.
    pub fn rot_x_y_z(x: Angle, y: Angle, z: Angle) -> (m: Mat3)
        ensures
            m == Mat3::spec_rot_x_y_z(x, y, z),
    {
        let o = Fixed::from_int(0);
        let i = Fixed::from_int(1);
        let rx = Mat3 { coords: [[i, o, o], [o, x.cos, x.sin.neg()], [o, x.sin, x.cos]] };
        let ry = Mat3 { coords: [[y.cos, o, y.sin], [o, i, o], [y.sin.neg(), o, y.cos]] };
        let rz = Mat3 { coords: [[z.cos, z.sin.neg(), o], [z.sin, z.cos, o], [o, o, i]] };
        rz * (ry * rx)
    }
}

impl core::ops::Add<Mat3> for Mat3 {
    type Output = Mat3;

    /// The sum, entry by entry.
    fn add(self, other: Mat3) -> (r: Mat3)
        ensures
            r == self.spec_add(other),
    {
        let a = self.row(0) + other.row(0);
        let b = self.row(1) + other.row(1);
        let c = self.row(2) + other.row(2);
        Mat3::from_rows(&a, &b, &c)
    }
}

impl vstd::std_specs::ops::AddSpecImpl<Mat3> for Mat3 {
    open spec fn obeys_add_spec() -> bool {
        true
    }

    open spec fn add_req(self, other: Mat3) -> bool {
        true
    }

    open spec fn add_spec(self, other: Mat3) -> Mat3 {
        self.spec_add(other)
    }
}

impl AddAssign<Mat3> for Mat3 {
    /// Adds `other` to the matrix.
    fn add_assign(&mut self, other: Mat3)
        ensures
            *final(self) == old(self).spec_add(other),
    {
        *self = *self + other;
    }
}

impl core::ops::Sub<Mat3> for Mat3 {
    type Output = Mat3;

    /// The difference, entry by entry.
    fn sub(self, other: Mat3) -> (r: Mat3)
        ensures
            r == self.spec_sub(other),
    {
        let a = self.row(0) - other.row(0);
        let b = self.row(1) - other.row(1);
        let c = self.row(2) - other.row(2);
        Mat3::from_rows(&a, &b, &c)
    }
}

impl vstd::std_specs::ops::SubSpecImpl<Mat3> for Mat3 {
    open spec fn obeys_sub_spec() -> bool {
        true
    }

    open spec fn sub_req(self, other: Mat3) -> bool {
        true
    }

    open spec fn sub_spec(self, other: Mat3) -> Mat3 {
        self.spec_sub(other)
    }
}

impl SubAssign<Mat3> for Mat3 {
    /// Takes `other` from the matrix.
    fn sub_assign(&mut self, other: Mat3)
        ensures
            *final(self) == old(self).spec_sub(other),
    {
        *self = *self - other;
    }
}

impl core::ops::Mul<Mat3> for Mat3 {
    type Output = Mat3;

    /// The matrix product: rows of `self` times columns of `rhs`.
    fn mul(self, rhs: Mat3) -> (r: Mat3)
        ensures
            r == self.spec_mul(rhs),
    {
        let a = self * rhs.col(0);
        let b = self * rhs.col(1);
        let c = self * rhs.col(2);
        Mat3::from_cols(&a, &b, &c)
    }
}

impl vstd::std_specs::ops::MulSpecImpl<Mat3> for Mat3 {
    open spec fn obeys_mul_spec() -> bool {
        true
    }

    open spec fn mul_req(self, rhs: Mat3) -> bool {
        true
    }

    open spec fn mul_spec(self, rhs: Mat3) -> Mat3 {
        self.spec_mul(rhs)
    }
}

impl core::ops::Mul<Vec3> for Mat3 {
    type Output = Vec3;

    /// The matrix applied to the vector.
    fn mul(self, rhs: Vec3) -> (r: Vec3)
        ensures
            r == self.spec_apply(rhs),
    {
        Vec3 { x: self.row(0).dot(&rhs), y: self.row(1).dot(&rhs), z: self.row(2).dot(&rhs) }
    }
}

impl vstd::std_specs::ops::MulSpecImpl<Vec3> for Mat3 {
    open spec fn obeys_mul_spec() -> bool {
        true
    }

    open spec fn mul_req(self, rhs: Vec3) -> bool {
        true
    }

    open spec fn mul_spec(self, rhs: Vec3) -> Vec3 {
        self.spec_apply(rhs)
    }
}

impl core::ops::Mul<Mat3> for Fixed {
    type Output = Mat3;

    /// The matrix with every entry multiplied by the scalar.
    fn mul(self, rhs: Mat3) -> (r: Mat3)
        ensures
            r == rhs.spec_scale(self),
    {
        let a = self * rhs.row(0);
        let b = self * rhs.row(1);
        let c = self * rhs.row(2);
        Mat3::from_rows(&a, &b, &c)
    }
}

impl vstd::std_specs::ops::MulSpecImpl<Mat3> for Fixed {
    open spec fn obeys_mul_spec() -> bool {
        true
    }

    open spec fn mul_req(self, rhs: Mat3) -> bool {
        true
    }

    open spec fn mul_spec(self, rhs: Mat3) -> Mat3 {
        rhs.spec_scale(self)
    }
}

impl core::ops::Div<Fixed> for Mat3 {
    type Output = Mat3;

    /// The matrix with every entry divided by a scalar that is not zero.
    fn div(self, rhs: Fixed) -> (r: Mat3)
        ensures
            r == self.spec_div(rhs),
    {
        let a = self.row(0) / rhs;
        let b = self.row(1) / rhs;
        let c = self.row(2) / rhs;
        Mat3::from_rows(&a, &b, &c)
    }
}

impl vstd::std_specs::ops::DivSpecImpl<Fixed> for Mat3 {
    open spec fn obeys_div_spec() -> bool {
        true
    }

    open spec fn div_req(self, rhs: Fixed) -> bool {
        rhs.raw != 0
    }

    open spec fn div_spec(self, rhs: Fixed) -> Mat3 {
        self.spec_div(rhs)
    }
}

} // verus!

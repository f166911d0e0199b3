//! The edge of a diamond belongs to it: rays straight at the unit square are
//! told apart exactly, those on the edge being hits.

use crate::fixed::{lemma_div_exact, Fixed, SCALE};
use crate::math::inverse::{
    lemma_inverse_entry, lemma_whole_dot, lemma_whole_times, spec_cofactor, spec_inverse_entry,
};
use crate::math::whole::{
    lemma_whole_product, spec_entry, spec_is_whole, spec_whole_determinant, spec_whole_matrix,
};
use crate::math::{lemma_axis_norm, lemma_normalizable_iff_nonzero, spec_whole, Mat3, Vec3};
use crate::render::shapes::{Diamond, Intersection, Ray};
use vstd::prelude::*;

verus! {

/// The unit square in the plane `z = 0`, centered at the origin.
pub open spec fn spec_unit_diamond() -> Diamond {
    Diamond { center: spec_whole(0, 0, 0), width: spec_whole(1, 0, 0), height: spec_whole(0, 1, 0) }
}

/// Whether a coordinate is of moderate size: at most 524288 in magnitude.
pub open spec fn spec_moderate_coordinate(a: Fixed) -> bool {
    -0x8_0000 * SCALE <= a.raw <= 0x8_0000 * SCALE
}

/// Whether the ray runs straight along the z axis, toward larger `z`, from
/// an origin of moderate size.
pub open spec fn spec_straight(ray: Ray) -> bool {
    &&& ray.direction == spec_whole(0, 0, 1)
    &&& spec_moderate_coordinate(ray.origin.x)
    &&& spec_moderate_coordinate(ray.origin.y)
    &&& spec_moderate_coordinate(ray.origin.z)
}

/// The products among the scalars zero, one and minus one.
proof fn lemma_small_products()
    ensures
        Fixed::spec_from_int(0).spec_mul(Fixed::spec_from_int(0)) == Fixed::spec_from_int(0),
        Fixed::spec_from_int(0).spec_mul(Fixed::spec_from_int(1)) == Fixed::spec_from_int(0),
        Fixed::spec_from_int(1).spec_mul(Fixed::spec_from_int(0)) == Fixed::spec_from_int(0),
        Fixed::spec_from_int(1).spec_mul(Fixed::spec_from_int(1)) == Fixed::spec_from_int(1),
        Fixed::spec_from_int(-1).spec_mul(Fixed::spec_from_int(-1)) == Fixed::spec_from_int(1),
        Fixed::spec_from_int(0).spec_mul(Fixed::spec_from_int(-1)) == Fixed::spec_from_int(0),
        Fixed::spec_from_int(-1).spec_mul(Fixed::spec_from_int(0)) == Fixed::spec_from_int(0),
{
    let o = Fixed::spec_from_int(0);
    let i = Fixed::spec_from_int(1);
    let n = Fixed::spec_from_int(-1);
    lemma_whole_product(o, o, 0, 0, 1);
    lemma_whole_product(o, i, 0, 1, 1);
    lemma_whole_product(i, o, 1, 0, 1);
    lemma_whole_product(i, i, 1, 1, 1);
    lemma_whole_product(n, n, -1, -1, 1);
    lemma_whole_product(o, n, 0, -1, 1);
    lemma_whole_product(n, o, -1, 0, 1);
}

/// The vectors along the z axis of length one are their own normalizations.
proof fn lemma_axis_normalized()
    ensures
        spec_whole(0, 0, 1).spec_normalizable(),
        spec_whole(0, 0, 1).spec_normalize() == spec_whole(0, 0, 1),
        spec_whole(0, 0, -1).spec_normalizable(),
        spec_whole(0, 0, -1).spec_normalize() == spec_whole(0, 0, -1),
{
    let o = Fixed::spec_from_int(0);
    let i = Fixed::spec_from_int(1);
    let n = Fixed::spec_from_int(-1);
    lemma_axis_norm(spec_whole(0, 0, 1));
    lemma_axis_norm(spec_whole(0, 0, -1));
    assert(spec_whole(0, 0, 1).spec_norm() == i);
    assert(spec_whole(0, 0, -1).spec_norm() == i);
    assert(o.raw * SCALE == 0 * i.raw) by (nonlinear_arith)
        requires
            o.raw == 0,
    ;
    lemma_div_exact(o, i, 0);
    assert(i.raw * SCALE == SCALE * i.raw) by (nonlinear_arith);
    lemma_div_exact(i, i, SCALE as int);
    assert(n.raw * SCALE == (-SCALE) * i.raw) by (nonlinear_arith)
        requires
            n.raw == -SCALE,
            i.raw == SCALE,
    ;
    lemma_div_exact(n, i, -SCALE);
}

/// The two normals of the unit square are the two unit vectors along the z
/// axis.
proof fn lemma_unit_normals()
    ensures
        spec_whole(1, 0, 0).spec_cross_forward(spec_whole(0, 1, 0)) == spec_whole(0, 0, 1),
        spec_whole(1, 0, 0).spec_cross_backward(spec_whole(0, 1, 0)) == spec_whole(0, 0, -1),
        spec_whole(1, 0, 0).spec_cross_defined(spec_whole(0, 1, 0)),
{
    lemma_small_products();
    lemma_axis_normalized();
}

/// The product of two numbers that are each zero or one.
proof fn lemma_bit_product(x: int, y: int)
    requires
        x == 0 || x == 1,
        y == 0 || y == 1,
    ensures
        x * y == if x == 1 && y == 1 {
            1int
        } else {
            0int
        },
{
    assert(x * y == if x == 1 && y == 1 {
        1int
    } else {
        0int
    }) by (nonlinear_arith)
        requires
            x == 0 || x == 1,
            y == 0 || y == 1,
    ;
}

/// The cofactors of the identity are the entries of the identity.
proof fn lemma_identity_cofactors(m: Mat3)
    requires
        spec_entry(m, 0, 0) == 1 && spec_entry(m, 0, 1) == 0 && spec_entry(m, 0, 2) == 0,
        spec_entry(m, 1, 0) == 0 && spec_entry(m, 1, 1) == 1 && spec_entry(m, 1, 2) == 0,
        spec_entry(m, 2, 0) == 0 && spec_entry(m, 2, 1) == 0 && spec_entry(m, 2, 2) == 1,
    ensures
        spec_cofactor(m, 0, 0) == 1 && spec_cofactor(m, 0, 1) == 0 && spec_cofactor(m, 0, 2) == 0,
        spec_cofactor(m, 1, 0) == 0 && spec_cofactor(m, 1, 1) == 1 && spec_cofactor(m, 1, 2) == 0,
        spec_cofactor(m, 2, 0) == 0 && spec_cofactor(m, 2, 1) == 0 && spec_cofactor(m, 2, 2) == 1,
{
    lemma_bit_product(spec_entry(m, 1, 1), spec_entry(m, 2, 2));
    lemma_bit_product(spec_entry(m, 1, 2), spec_entry(m, 2, 1));
    lemma_bit_product(spec_entry(m, 1, 0), spec_entry(m, 2, 2));
    lemma_bit_product(spec_entry(m, 1, 2), spec_entry(m, 2, 0));
    lemma_bit_product(spec_entry(m, 1, 0), spec_entry(m, 2, 1));
    lemma_bit_product(spec_entry(m, 1, 1), spec_entry(m, 2, 0));
    lemma_bit_product(spec_entry(m, 0, 1), spec_entry(m, 2, 2));
    lemma_bit_product(spec_entry(m, 0, 2), spec_entry(m, 2, 1));
    lemma_bit_product(spec_entry(m, 0, 0), spec_entry(m, 2, 2));
    lemma_bit_product(spec_entry(m, 0, 2), spec_entry(m, 2, 0));
    lemma_bit_product(spec_entry(m, 0, 0), spec_entry(m, 2, 1));
    lemma_bit_product(spec_entry(m, 0, 1), spec_entry(m, 2, 0));
    lemma_bit_product(spec_entry(m, 0, 1), spec_entry(m, 1, 2));
    lemma_bit_product(spec_entry(m, 0, 2), spec_entry(m, 1, 1));
    lemma_bit_product(spec_entry(m, 0, 0), spec_entry(m, 1, 2));
    lemma_bit_product(spec_entry(m, 0, 2), spec_entry(m, 1, 0));
    lemma_bit_product(spec_entry(m, 0, 0), spec_entry(m, 1, 1));
    lemma_bit_product(spec_entry(m, 0, 1), spec_entry(m, 1, 0));
}

/// With the unit square and a ray along the z axis, the matrix to invert is
/// the identity, and so is its inverse.
proof fn lemma_identity_inverse(m: Mat3)
    requires
        m == Mat3::spec_from_cols(spec_whole(1, 0, 0), spec_whole(0, 1, 0), spec_whole(0, 0, 1)),
    ensures
        m.spec_invert() == Some(m),
{
    let o = Fixed::spec_from_int(0);
    let i = Fixed::spec_from_int(1);
    assert(m.at(0, 0) == i && m.at(0, 1) == o && m.at(0, 2) == o);
    assert(m.at(1, 0) == o && m.at(1, 1) == i && m.at(1, 2) == o);
    assert(m.at(2, 0) == o && m.at(2, 1) == o && m.at(2, 2) == i);
    assert(spec_entry(m, 0, 0) == 1 && spec_entry(m, 0, 1) == 0 && spec_entry(m, 0, 2) == 0);
    assert(spec_entry(m, 1, 0) == 0 && spec_entry(m, 1, 1) == 1 && spec_entry(m, 1, 2) == 0);
    assert(spec_entry(m, 2, 0) == 0 && spec_entry(m, 2, 1) == 0 && spec_entry(m, 2, 2) == 1);
    assert(spec_whole_matrix(m));
    assert(spec_whole_determinant(m) == 1);
    assert forall|j: int, k: int| 0 <= j < 3 && 0 <= k < 3 implies (#[trigger] m.spec_invert()->0.at(
        j,
        k,
    )) == m.at(j, k) by {
        lemma_inverse_entry(m, j, k);
        lemma_identity_cofactors(m);
    }
    lemma_inverse_entry(m, 0, 0);
    let inv = m.spec_invert()->0;
    assert(inv.at(0, 0) == m.at(0, 0) && inv.at(0, 1) == m.at(0, 1) && inv.at(0, 2) == m.at(0, 2));
    assert(inv.at(1, 0) == m.at(1, 0) && inv.at(1, 1) == m.at(1, 1) && inv.at(1, 2) == m.at(1, 2));
    assert(inv.at(2, 0) == m.at(2, 0) && inv.at(2, 1) == m.at(2, 1) && inv.at(2, 2) == m.at(2, 2));
    assert(inv.coords[0] =~= m.coords[0]);
    assert(inv.coords[1] =~= m.coords[1]);
    assert(inv.coords[2] =~= m.coords[2]);
    assert(inv.coords =~= m.coords);
}

/// A ray straight at the unit square hits it exactly when its origin lies
/// over the square, the edge counted in, and not beyond it; the hit is the
/// point of the square under the origin, at the distance of the origin from
/// the plane, with the normal along the ray.
pub proof fn lemma_unit_diamond_boundary(ray: Ray)
    requires
        spec_straight(ray),
    ensures
        spec_unit_diamond().spec_intersect(ray) is Some <==> {
            &&& -Fixed::spec_half().raw <= ray.origin.x.raw <= Fixed::spec_half().raw
            &&& -Fixed::spec_half().raw <= ray.origin.y.raw <= Fixed::spec_half().raw
            &&& ray.origin.z.raw <= 0
        },
        spec_unit_diamond().spec_intersect(ray) is Some ==> spec_unit_diamond().spec_intersect(ray)
            == Some(
            Intersection {
                point: Vec3 { x: ray.origin.x, y: ray.origin.y, z: Fixed { raw: 0 } },
                dist: ray.origin.z.spec_neg(),
                normal: spec_whole(0, 0, 1),
            },
        ),
{
    let d = spec_unit_diamond();
    let m = Mat3::spec_from_cols(d.width, d.height, ray.direction);
    lemma_identity_inverse(m);
    let delta = ray.origin.spec_sub(d.center);
    assert(delta == ray.origin);
    lemma_whole_dot(m.spec_row(0), delta, 1, 0, 0);
    lemma_whole_dot(m.spec_row(1), delta, 0, 1, 0);
    lemma_whole_dot(m.spec_row(2), delta, 0, 0, 1);
    assert(m.spec_apply(delta) == delta);
    assert(d.spec_solve(ray) == Some(delta));
    lemma_unit_normals();
    lemma_small_products();
    lemma_axis_normalized();
    assert(spec_whole(0, 0, 1).spec_dot(spec_whole(0, 0, 1)) == Fixed::spec_from_int(1));
    assert(spec_whole(0, 0, 1).spec_direction() == spec_whole(0, 0, 1));
    assert(spec_whole(0, 0, -1).spec_direction() == spec_whole(0, 0, -1));
    assert(d.spec_normal(ray.direction) == spec_whole(0, 0, 1));
    let t = ray.origin.z.spec_neg();
    assert(t.raw == -ray.origin.z.raw);
    lemma_whole_times(Fixed::spec_from_int(0), t, 0);
    lemma_whole_times(Fixed::spec_from_int(1), t, 1);
    assert(ray.direction.spec_scale(t) == (Vec3 {
        x: Fixed { raw: 0 },
        y: Fixed { raw: 0 },
        z: t,
    }));
    assert(ray.spec_point_at(t) == (Vec3 {
        x: ray.origin.x,
        y: ray.origin.y,
        z: Fixed { raw: 0 },
    }));
}

/// Whether a raw coordinate is small enough for its products to fit: at
/// most 2^15 in magnitude.
pub open spec fn spec_fits_products(a: Fixed) -> bool {
    -0x8000_0000_0000 <= a.raw <= 0x8000_0000_0000
}

/// The normals of a diamond exist from a stated size on: whenever the exact
/// cross product of the spanning vectors is at least two units, 2^-31, in
/// one of its coordinates, neither computed cross product is the zero
/// vector, and the normals are their normalizations. A diamond with sides
/// along two axes has them whenever the product of its sides is that large.
pub proof fn lemma_normals_exist(w: Vec3, h: Vec3)
    requires
        spec_fits_products(w.x) && spec_fits_products(w.y) && spec_fits_products(w.z),
        spec_fits_products(h.x) && spec_fits_products(h.y) && spec_fits_products(h.z),
        spec_two_units(w.y.raw * h.z.raw - w.z.raw * h.y.raw) || spec_two_units(
            w.z.raw * h.x.raw - w.x.raw * h.z.raw,
        ) || spec_two_units(w.x.raw * h.y.raw - w.y.raw * h.x.raw),
    ensures
        w.spec_cross_defined(h),
        w.spec_cross_forward(h).spec_direction() == w.spec_cross_forward(h).spec_normalize(),
        w.spec_cross_backward(h).spec_direction() == w.spec_cross_backward(h).spec_normalize(),
{
    lemma_product_bound(w.y, h.z);
    lemma_product_bound(w.z, h.y);
    lemma_product_bound(w.z, h.x);
    lemma_product_bound(w.x, h.z);
    lemma_product_bound(w.x, h.y);
    lemma_product_bound(w.y, h.x);
    lemma_product_bound(h.z, w.y);
    lemma_product_bound(h.y, w.z);
    lemma_product_bound(h.x, w.z);
    lemma_product_bound(h.z, w.x);
    lemma_product_bound(h.y, w.x);
    lemma_product_bound(h.x, w.y);
    reveal(Fixed::spec_mul);
    lemma_normalizable_iff_nonzero(w.spec_cross_forward(h));
    lemma_normalizable_iff_nonzero(w.spec_cross_backward(h));
}

/// Whether an exact product difference, in units of 2^-64, amounts to at
/// least two units of 2^-32 in magnitude.
pub open spec fn spec_two_units(d: int) -> bool {
    d >= 2 * SCALE || d <= -2 * SCALE
}

/// The exact product of two coordinates that fit, and the same product with
/// its factors exchanged.
proof fn lemma_product_bound(a: Fixed, b: Fixed)
    requires
        spec_fits_products(a),
        spec_fits_products(b),
    ensures
        -0x4000_0000_0000_0000_0000_0000 <= a.raw * b.raw <= 0x4000_0000_0000_0000_0000_0000,
        a.raw * b.raw == b.raw * a.raw,
{
    assert(-0x4000_0000_0000_0000_0000_0000 <= a.raw * b.raw <= 0x4000_0000_0000_0000_0000_0000
        && a.raw * b.raw == b.raw * a.raw) by (nonlinear_arith)
        requires
            -0x8000_0000_0000 <= a.raw <= 0x8000_0000_0000,
            -0x8000_0000_0000 <= b.raw <= 0x8000_0000_0000,
    ;
}

} // verus!

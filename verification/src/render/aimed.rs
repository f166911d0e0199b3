//! A ray aimed along the z axis at the center of a sphere: the hit is the
//! near one of the two, and its normal faces back along the ray.

use crate::fixed::{lemma_div_exact, lemma_sqrt_exact, Fixed, SCALE};
use crate::math::whole::{lemma_whole_product, spec_is_whole};
use crate::math::unit::{lemma_normalized_has_unit_norm, spec_moderate, spec_unit_tolerance};
use crate::math::{lemma_axis_norm, spec_whole, Vec3};
use crate::render::shapes::{Intersection, Ray, Sphere};
use vstd::prelude::*;

verus! {

/// Whether `ray` runs along the z axis toward the center of `sphere` from
/// the whole distance `l` before it, the sphere having the whole radius `r`,
/// smaller than `l`; all within a moderate size.
pub open spec fn spec_aimed(sphere: Sphere, ray: Ray, l: int, r: int) -> bool {
    &&& ray.direction == spec_whole(0, 0, 1)
    &&& 0 < r < l <= 0x3fff
    &&& sphere.radius == Fixed::spec_from_int(r)
    &&& ray.origin.x == sphere.center.x
    &&& ray.origin.y == sphere.center.y
    &&& ray.origin.z.raw == sphere.center.z.raw - l * SCALE
    &&& -0x8_0000 * SCALE <= sphere.center.x.raw <= 0x8_0000 * SCALE
    &&& -0x8_0000 * SCALE <= sphere.center.y.raw <= 0x8_0000 * SCALE
    &&& -0x8_0000 * SCALE <= sphere.center.z.raw <= 0x8_0000 * SCALE
}

/// The whole number `k` as a scalar is whole.
proof fn lemma_from_int_whole(k: int)
    requires
        -0x8000_0000 <= k <= 0x7fff_ffff,
    ensures
        spec_is_whole(Fixed::spec_from_int(k), k),
{
    assert(i64::MIN <= k * SCALE <= i64::MAX) by (nonlinear_arith)
        requires
            -0x8000_0000 <= k <= 0x7fff_ffff,
            SCALE == 0x1_0000_0000,
    ;
}

/// A scalar that is the whole number `k` is `spec_from_int(k)`.
proof fn lemma_whole_is_from_int(a: Fixed, k: int)
    requires
        spec_is_whole(a, k),
    ensures
        a == Fixed::spec_from_int(k),
{
}

/// The quotient of two whole scalars, the one a whole multiple of the
/// other, is the whole multiplier.
proof fn lemma_whole_ratio(a: Fixed, b: Fixed, k: int, d: int)
    requires
        spec_is_whole(a, k * d),
        spec_is_whole(b, d),
        d != 0,
        -0x7fff_ffff <= k <= 0x7fff_ffff,
    ensures
        spec_is_whole(a.spec_div(b), k),
{
    let c = k * SCALE;
    assert(a.raw * SCALE == c * b.raw) by (nonlinear_arith)
        requires
            a.raw == (k * d) * SCALE,
            b.raw == d * SCALE,
            c == k * SCALE,
    ;
    assert(b.raw != 0) by (nonlinear_arith)
        requires
            b.raw == d * SCALE,
            d != 0,
            SCALE == 0x1_0000_0000,
    ;
    assert(i64::MIN <= c <= i64::MAX) by (nonlinear_arith)
        requires
            c == k * SCALE,
            -0x7fff_ffff <= k <= 0x7fff_ffff,
            SCALE == 0x1_0000_0000,
    ;
    lemma_div_exact(a, b, c);
}

/// The square root of the square of a whole scalar is that scalar.
proof fn lemma_whole_root(a: Fixed, k: int)
    requires
        spec_is_whole(a, k * k),
        0 <= k <= 0x7fff_ffff,
    ensures
        spec_is_whole(a.spec_sqrt(), k),
{
    let r = k * SCALE;
    assert(a.raw * SCALE == r * r) by (nonlinear_arith)
        requires
            a.raw == (k * k) * SCALE,
            r == k * SCALE,
    ;
    assert(0 <= r <= i64::MAX) by (nonlinear_arith)
        requires
            r == k * SCALE,
            0 <= k <= 0x7fff_ffff,
            SCALE == 0x1_0000_0000,
    ;
    lemma_sqrt_exact(a, r);
}

/// A ray aimed along the z axis at the center of a sphere, from the whole
/// distance `l` before the center of a sphere of the whole radius `r`, hits
/// it at the distance `l - r`: at the near one of the two points where the
/// axis meets the sphere, `r` before the center, with the unit normal that
/// faces back along the ray.
pub proof fn lemma_aimed_hit(sphere: Sphere, ray: Ray, l: int, r: int)
    requires
        spec_aimed(sphere, ray, l, r),
    ensures
        sphere.spec_intersect(ray) == Some(
            Intersection {
                point: Vec3 {
                    x: sphere.center.x,
                    y: sphere.center.y,
                    z: Fixed { raw: (sphere.center.z.raw - r * SCALE) as i64 },
                },
                dist: Fixed::spec_from_int(l - r),
                normal: spec_whole(0, 0, -1),
            },
        ),
{
    let o = Fixed::spec_from_int(0);
    let i = Fixed::spec_from_int(1);
    let two = Fixed::spec_from_int(2);
    let four = Fixed::spec_from_int(4);
    let far = Fixed::spec_from_int(-l);
    lemma_from_int_whole(0);
    lemma_from_int_whole(1);
    lemma_from_int_whole(2);
    lemma_from_int_whole(4);
    lemma_from_int_whole(-l);
    lemma_from_int_whole(r);
    assert(l * SCALE <= 0x3fff * SCALE && r * SCALE < l * SCALE && 0 < r * SCALE)
        by (nonlinear_arith)
        requires
            0 < r < l <= 0x3fff,
            SCALE == 0x1_0000_0000,
    ;
    let delta = ray.origin.spec_sub(sphere.center);
    assert(delta == spec_whole(0, 0, -l));
    assert(l * l <= 0x3fff * 0x3fff && r * r < l * l && 0 < r * r && l * r < l * l)
        by (nonlinear_arith)
        requires
            0 < r < l <= 0x3fff,
    ;
    // the coefficient a
    lemma_whole_product(o, o, 0, 0, 1);
    lemma_whole_product(i, i, 1, 1, 1);
    let a = Sphere::spec_a(ray);
    assert(a == i);
    // the coefficient b
    lemma_whole_product(far, i, -l, 1, 0x3fff);
    assert((-l) * 1 == -l);
    let along = delta.spec_dot(ray.direction);
    assert(spec_is_whole(along, -l));
    lemma_whole_product(two, along, 2, -l, 0x7ffe);
    let b = sphere.spec_b(ray);
    assert(spec_is_whole(b, 2 * (-l)));
    // the coefficient c
    assert((-l) * (-l) == l * l) by (nonlinear_arith);
    lemma_whole_product(far, far, -l, -l, 0xfff_8001);
    lemma_whole_product(sphere.radius, sphere.radius, r, r, 0xfff_8001);
    let c = sphere.spec_c(ray);
    assert(spec_is_whole(c, l * l - r * r)) by (nonlinear_arith)
        requires
            c.raw == crate::fixed::saturate(
                delta.spec_norm2().raw - sphere.radius.spec_mul(sphere.radius).raw,
            ),
            delta.spec_norm2().raw == (l * l) * SCALE,
            sphere.radius.spec_mul(sphere.radius).raw == (r * r) * SCALE,
            0 < r * r < l * l <= 0x3fff * 0x3fff,
            SCALE == 0x1_0000_0000,
    ;
    // the discriminant
    assert((2 * (-l)) * (2 * (-l)) == 4 * (l * l)) by (nonlinear_arith);
    lemma_whole_product(b, b, 2 * (-l), 2 * (-l), 0x3ffe_0004);
    lemma_whole_product(four, a, 4, 1, 4);
    assert(4 * (l * l - r * r) <= 4 * (0x3fff * 0x3fff) && 0 <= 4 * (l * l - r * r));
    lemma_whole_product(four.spec_mul(a), c, 4int * 1int, l * l - r * r, 0x3ffe_0004);
    let disc = sphere.spec_discriminant(ray);
    assert(spec_is_whole(disc, (2 * r) * (2 * r))) by (nonlinear_arith)
        requires
            disc.raw == crate::fixed::saturate(
                b.spec_mul(b).raw - four.spec_mul(a).spec_mul(c).raw,
            ),
            b.spec_mul(b).raw == ((2 * (-l)) * (2 * (-l))) * SCALE,
            (2 * (-l)) * (2 * (-l)) == 4 * (l * l),
            four.spec_mul(a).spec_mul(c).raw == ((4 * 1) * (l * l - r * r)) * SCALE,
            0 < r * r < l * l <= 0x3fff * 0x3fff,
            SCALE == 0x1_0000_0000,
    ;
    assert(disc.raw > 0) by (nonlinear_arith)
        requires
            disc.raw == ((2 * r) * (2 * r)) * SCALE,
            r > 0,
            SCALE == 0x1_0000_0000,
    ;
    // the two roots
    lemma_whole_product(two, a, 2, 1, 2);
    let two_a = two.spec_mul(a);
    assert(spec_is_whole(two_a, 2));
    lemma_whole_root(disc, 2 * r);
    let s = disc.spec_sqrt();
    let low_top = b.spec_neg().spec_sub(s);
    let high_top = b.spec_neg().spec_add(s);
    assert(spec_is_whole(low_top, (l - r) * 2) && spec_is_whole(high_top, (l + r) * 2))
        by (nonlinear_arith)
        requires
            b.raw == (2 * (-l)) * SCALE,
            s.raw == (2 * r) * SCALE,
            low_top.raw == crate::fixed::saturate(
                crate::fixed::saturate(-b.raw) - s.raw,
            ),
            high_top.raw == crate::fixed::saturate(
                crate::fixed::saturate(-b.raw) + s.raw,
            ),
            0 < r < l <= 0x3fff,
            SCALE == 0x1_0000_0000,
    ;
    lemma_whole_ratio(low_top, two_a, l - r, 2);
    lemma_whole_ratio(high_top, two_a, l + r, 2);
    let t = sphere.spec_smaller_root(ray);
    assert(spec_is_whole(t, l - r)) by (nonlinear_arith)
        requires
            t == if low_top.spec_div(two_a).raw < high_top.spec_div(two_a).raw {
                low_top.spec_div(two_a)
            } else {
                high_top.spec_div(two_a)
            },
            low_top.spec_div(two_a).raw == (l - r) * SCALE,
            high_top.spec_div(two_a).raw == (l + r) * SCALE,
            r > 0,
            SCALE == 0x1_0000_0000,
    ;
    lemma_whole_is_from_int(t, l - r);
    // the hit
    lemma_whole_product(t, o, l - r, 0, 1);
    assert((l - r) * 0 == 0 && (l - r) * 1 == l - r);
    lemma_whole_product(t, i, l - r, 1, 0x3fff);
    assert((l - r) * SCALE == l * SCALE - r * SCALE) by (nonlinear_arith);
    let point = ray.spec_point_at(t);
    assert(point.x == sphere.center.x && point.y == sphere.center.y);
    assert(point.z.raw == sphere.center.z.raw - r * SCALE);
    let outward = point.spec_sub(sphere.center);
    assert(outward.x.raw == 0 && outward.y.raw == 0 && outward.z.raw == -(r * SCALE));
    let back = Fixed::spec_from_int(-r);
    lemma_from_int_whole(-r);
    assert(back.raw == -(r * SCALE)) by (nonlinear_arith)
        requires
            back.raw == (-r) * SCALE,
    ;
    assert(outward == (Vec3 { x: o, y: o, z: back }));
    lemma_axis_norm(outward);
    let size = outward.spec_norm();
    assert(spec_is_whole(size, r));
    assert(size.raw != 0);
    assert(0 == 0 * r && -r == (-1) * r) by (nonlinear_arith);
    lemma_whole_ratio(o, size, 0, r);
    lemma_whole_ratio(back, size, -1, r);
    assert(outward.spec_normalize() == spec_whole(0, 0, -1));
    assert(outward.spec_direction() == spec_whole(0, 0, -1));
    assert(sphere.spec_hits(ray));
}

/// A sphere is hit exactly when the discriminant is not negative, for every
/// ray whose direction has a squared norm that is not zero: a ray made by
/// `Ray::new` has one of about one.
pub proof fn lemma_hit_iff_discriminant(sphere: Sphere, ray: Ray)
    requires
        Sphere::spec_a(ray).raw != 0,
    ensures
        sphere.spec_intersect(ray) is Some <==> sphere.spec_discriminant(ray).raw >= 0,
{
    reveal(Fixed::spec_mul);
    crate::math::lemma_norm2_nonnegative(ray.direction);
}

/// The normal of a hit on a sphere has unit norm within the tolerance,
/// whenever the hit point lies at least 2^-15 from the center and no
/// further than 2^29 along any axis.
pub proof fn lemma_hit_normal_is_unit(sphere: Sphere, ray: Ray)
    requires
        sphere.spec_intersect(ray) is Some,
        spec_moderate(sphere.spec_intersect(ray)->0.point.spec_sub(sphere.center)),
    ensures
        SCALE - spec_unit_tolerance() <= sphere.spec_intersect(ray)->0.normal.spec_norm().raw
            <= SCALE + spec_unit_tolerance(),
{
    lemma_normalized_has_unit_norm(sphere.spec_intersect(ray)->0.point.spec_sub(sphere.center));
}

} // verus!

use rand::rngs::StdRng;
use rand::Rng;
use rand::SeedableRng;
use rust3d::fixed::Fixed;
use rust3d::math::{Mat3, Vec3};

fn fx(x: f64) -> Fixed {
    Fixed::from_raw((x * 4294967296.0).round() as i64)
}

fn vec3(x: f64, y: f64, z: f64) -> Vec3 {
    Vec3::new(fx(x), fx(y), fx(z))
}

fn mat3(rows: [[f64; 3]; 3]) -> Mat3 {
    Mat3::new([
        [fx(rows[0][0]), fx(rows[0][1]), fx(rows[0][2])],
        [fx(rows[1][0]), fx(rows[1][1]), fx(rows[1][2])],
        [fx(rows[2][0]), fx(rows[2][1]), fx(rows[2][2])],
    ])
}

#[test]
fn test_add_vectors() {
    let v1 = vec3(1.0, 2.0, 3.0);
    let v2 = vec3(3.0, 2.0, 1.0);
    let actual = v1 + v2;
    let expected = vec3(4.0, 4.0, 4.0);
    assert_eq!(actual, expected, "vector addition failed");
}

#[test]
fn test_vector_add_assign() {
    let mut v1 = vec3(1.0, 2.0, 3.0);
    let v2 = vec3(3.0, 2.0, 1.0);
    v1 += v2;
    let expected = vec3(4.0, 4.0, 4.0);
    assert_eq!(v1, expected, "vector addition failed");
}

#[test]
fn test_sub_vectors() {
    let v1 = vec3(1.0, 2.0, 3.0);
    let v2 = vec3(3.0, 2.0, 1.0);
    let actual = v1 - v2;
    let expected = vec3(-2.0, 0.0, 2.0);
    assert_eq!(actual, expected, "vector subtraction failed");
}

#[test]
fn test_vector_sub_assign() {
    let mut v1 = vec3(1.0, 2.0, 3.0);
    let v2 = vec3(3.0, 2.0, 1.0);
    v1 -= v2;
    let expected = vec3(-2.0, 0.0, 2.0);
    assert_eq!(v1, expected, "vector subtraction failed");
}

#[test]
fn test_scalar_mul_vector() {
    let v = vec3(1.0, 2.0, 3.0);
    let actual = fx(3.0) * v;
    let expected = vec3(3.0, 6.0, 9.0);
    assert_eq!(actual, expected, "scalar multiplication failed");
}

#[test]
fn test_vector_mul_assign() {
    let mut v = vec3(1.0, 2.0, 3.0);
    v *= fx(3.0);
    let expected = vec3(3.0, 6.0, 9.0);
    assert_eq!(v, expected, "scalar multiplication failed");
}

#[test]
fn test_div_vector() {
    let v = vec3(2.0, 4.0, 6.0);
    let actual = v / fx(2.0);
    let expected = vec3(1.0, 2.0, 3.0);
    assert_eq!(actual, expected, "vector division failed");
}

#[test]
fn test_vector_div_assign() {
    let mut v = vec3(2.0, 4.0, 6.0);
    v /= fx(2.0);
    let expected = vec3(1.0, 2.0, 3.0);
    assert_eq!(v, expected, "vector division failed");
}

#[test]
fn test_add_matrices() {
    let m = mat3([[1.0, 2.0, 3.0], [4.0, 5.0, 6.0], [7.0, 8.0, 9.0]]);
    let n = mat3([[3.0, 2.0, 1.0], [6.0, 5.0, 4.0], [9.0, 8.0, 7.0]]);
    let actual = m + n;
    let expected = mat3([[4.0, 4.0, 4.0], [10.0, 10.0, 10.0], [16.0, 16.0, 16.0]]);
    assert_eq!(actual, expected, "matrix addition failed");
}

#[test]
fn test_sub_matrices() {
    let m = mat3([[1.0, 2.0, 3.0], [4.0, 5.0, 6.0], [7.0, 8.0, 9.0]]);
    let n = mat3([[3.0, 2.0, 1.0], [6.0, 5.0, 4.0], [9.0, 8.0, 7.0]]);
    let actual = m - n;
    let expected = mat3([[-2.0, 0.0, 2.0], [-2.0, 0.0, 2.0], [-2.0, 0.0, 2.0]]);
    assert_eq!(actual, expected, "matrix subtraction failed");
}

#[test]
fn test_scalar_matrix_mul() {
    let m = mat3([[1.0, 2.0, 3.0], [4.0, 5.0, 6.0], [7.0, 8.0, 9.0]]);
    let actual = fx(2.0) * m;
    let expected = mat3([[2.0, 4.0, 6.0], [8.0, 10.0, 12.0], [14.0, 16.0, 18.0]]);
    assert_eq!(actual, expected, "scalar multiplication failed");
}

#[test]
fn test_matrix_div() {
    let m = mat3([[2.0, 4.0, 6.0], [12.0, 10.0, 8.0], [14.0, 16.0, 18.0]]);
    let actual = m / fx(2.0);
    let expected = mat3([[1.0, 2.0, 3.0], [6.0, 5.0, 4.0], [7.0, 8.0, 9.0]]);
    assert_eq!(actual, expected, "matrix division failed");
}

#[test]
fn test_matrix_vector_mul() {
    let m = mat3([[1.0, 2.0, 3.0], [4.0, 5.0, 6.0], [7.0, 8.0, 9.0]]);
    let v = vec3(1.0, 2.0, 3.0);
    let actual = m * v;
    let expected = vec3(14.0, 32.0, 50.0);
    assert_eq!(actual, expected, "matrix-vector multiplication failed");
}

#[test]
fn test_matrix_inverse_none() {
    let m = mat3([[1.0, 2.0, 3.0], [2.0, 4.0, 6.0], [7.0, 8.0, 9.0]]);
    let actual = m.invert();
    assert!(actual.is_none(), "matrix inverse failed");
}

#[test]
fn test_matrix_transpose() {
    let m = mat3([[1.0, 2.0, 3.0], [4.0, 5.0, 6.0], [7.0, 8.0, 9.0]]);
    let actual = m.transpose();
    let expected = mat3([[1.0, 4.0, 7.0], [2.0, 5.0, 8.0], [3.0, 6.0, 9.0]]);
    assert_eq!(actual, expected, "matrix transpose failed");
}

#[test]
fn test_matrix_inverse() {
    let m = mat3([[1.0, 3.0, 3.0], [4.0, 5.0, 6.0], [7.0, 8.0, 9.0]]);
    let inv = m.invert().unwrap();
    let result = m * inv;
    assert!(result.equals(&Mat3::identity(), fx(0.00000012)), "matrix inverse failed");
}

#[test]
fn test_many_matrix_inverses() {
    let mut rng = StdRng::seed_from_u64(2024);
    let tests_count = 100;
    let mut inverted_count = 0;

    for _ in 0..tests_count {
        let m = mat3([
            [rng.gen::<f32>() as f64, rng.gen::<f32>() as f64, rng.gen::<f32>() as f64],
            [rng.gen::<f32>() as f64, rng.gen::<f32>() as f64, rng.gen::<f32>() as f64],
            [rng.gen::<f32>() as f64, rng.gen::<f32>() as f64, rng.gen::<f32>() as f64],
        ]);

        let m_inv = m.invert();

        match m_inv {
            Some(inv) => {
                let inv_m = inv * m;
                let m_inv = m * inv;
                assert!(inv_m.equals(&Mat3::identity(), fx(0.0001)), "matrix inverse failed");
                assert!(m_inv.equals(&Mat3::identity(), fx(0.0001)), "matrix inverse failed");
                inverted_count += 1;
            }
            None => {}
        }

        assert!(inverted_count > 0, "matrix inverse failed");
    }
}

#[test]
fn test_vector_dot_product() {
    let v1 = vec3(1.0, 2.0, 3.0);
    let v2 = vec3(4.0, 5.0, 6.0);
    let actual = v1.dot(&v2);
    let expected = fx(32.0);
    assert_eq!(actual, expected, "vector dot product failed");
}

#[test]
fn vector_addition_commutes_and_associates() {
    let u = vec3(1.5, -2.25, 3.0);
    let v = vec3(-7.0, 0.125, 11.0);
    let w = vec3(0.5, 0.5, -100.0);
    assert_eq!(u + v, v + u);
    assert_eq!((u + v) + w, u + (v + w));
}

#[test]
fn addition_saturates_at_the_ends_of_the_range() {
    let top = Fixed::from_raw(i64::MAX);
    let one = fx(1.0);
    assert_eq!(top + one, top);
    assert_eq!((top + one) - one, Fixed::from_raw(i64::MAX - 4294967296));
    assert_eq!(top + (one - one), top);
}

#[test]
fn scaling_distributes_over_exact_products() {
    let u = vec3(1.5, -2.25, 3.0);
    let v = vec3(-7.0, 0.125, 11.0);
    let s = fx(4.0);
    assert_eq!(s * (u + v), s * u + s * v);
    assert_eq!(s * (u + v), vec3(-22.0, -8.5, 56.0));
}

#[test]
fn scaling_rounds_each_product_toward_zero() {
    let tiny = Vec3::new(Fixed::from_raw(1), Fixed::from_raw(1), Fixed::from_raw(-1));
    let s = fx(0.5);
    assert_eq!(s * (tiny + tiny), tiny);
    assert_eq!(s * tiny + s * tiny, vec3(0.0, 0.0, 0.0));
}

#[test]
fn norm_of_a_pythagorean_vector_is_exact() {
    let v = vec3(3.0, 4.0, 12.0);
    assert_eq!(v.norm2(), fx(169.0));
    assert_eq!(v.norm(), fx(13.0));
}

#[test]
fn normalize_gives_unit_norm() {
    let samples = [
        vec3(1.0, 2.0, 3.0),
        vec3(-0.3, 0.0, 0.4),
        vec3(1000.0, -2000.0, 123.456),
        vec3(0.0, 0.0625, 0.0),
    ];
    for v in samples.iter() {
        assert!(v.normalizable());
        let n = v.normalize().norm();
        let off = (n - fx(1.0)).abs();
        assert!(off.raw <= fx(0.00001).raw, "norm off by {} units", off.raw);
    }
}

#[test]
fn normalize_of_an_axis_vector_is_the_axis() {
    assert_eq!(vec3(0.0, -5.0, 0.0).normalize(), vec3(0.0, -1.0, 0.0));
}

#[test]
fn zero_vector_is_not_normalizable() {
    assert!(!vec3(0.0, 0.0, 0.0).normalizable());
    let short = Vec3::new(Fixed::from_raw(3), Fixed::from_raw(-4), Fixed::from_raw(0));
    assert!(short.normalizable());
    assert_eq!(short.norm().raw, 5);
    assert_eq!(short.direction().x.raw, 2576980377);
    assert_eq!(short.direction().y.raw, -3435973836);
    assert_eq!(short.direction().z.raw, 0);
    assert_eq!(vec3(0.0, 0.0, 0.0).direction(), vec3(0.0, 0.0, 0.0));
}

#[test]
fn cross_gives_both_unit_normals() {
    let x = vec3(2.0, 0.0, 0.0);
    let y = vec3(0.0, 3.0, 0.0);
    let both = x.cross(&y);
    assert_eq!(both[0], vec3(0.0, 0.0, 1.0));
    assert_eq!(both[1], vec3(0.0, 0.0, -1.0));
    let raw = x.cross_unnormalized(&y);
    assert_eq!(raw[0], vec3(0.0, 0.0, 6.0));
    assert_eq!(raw[1], vec3(0.0, 0.0, -6.0));
}

#[test]
fn from_cols_puts_vectors_in_columns() {
    let m = Mat3::from_cols(&vec3(1.0, 2.0, 3.0), &vec3(4.0, 5.0, 6.0), &vec3(7.0, 8.0, 9.0));
    assert_eq!(m, mat3([[1.0, 4.0, 7.0], [2.0, 5.0, 8.0], [3.0, 6.0, 9.0]]));
    assert_eq!(m.row(1), vec3(2.0, 5.0, 8.0));
    assert_eq!(m.col(2), vec3(7.0, 8.0, 9.0));
    assert_eq!(Mat3::from_rows(&m.row(0), &m.row(1), &m.row(2)), m);
}

#[test]
fn matrix_product_is_rows_times_columns() {
    let m = mat3([[1.0, 2.0, 3.0], [4.0, 5.0, 6.0], [7.0, 8.0, 9.0]]);
    let n = mat3([[0.0, 1.0, 0.0], [1.0, 0.0, 0.0], [0.0, 0.0, 2.0]]);
    assert_eq!(m * n, mat3([[2.0, 1.0, 6.0], [5.0, 4.0, 12.0], [8.0, 7.0, 18.0]]));
    assert_eq!(n * m, mat3([[4.0, 5.0, 6.0], [1.0, 2.0, 3.0], [14.0, 16.0, 18.0]]));
}

#[test]
fn matrix_add_and_sub_assign() {
    let mut m = mat3([[1.0, 2.0, 3.0], [4.0, 5.0, 6.0], [7.0, 8.0, 9.0]]);
    let n = mat3([[3.0, 2.0, 1.0], [6.0, 5.0, 4.0], [9.0, 8.0, 7.0]]);
    m += n;
    assert_eq!(m, mat3([[4.0, 4.0, 4.0], [10.0, 10.0, 10.0], [16.0, 16.0, 16.0]]));
    m -= n;
    m -= n;
    assert_eq!(m, mat3([[-2.0, 0.0, 2.0], [-2.0, 0.0, 2.0], [-2.0, 0.0, 2.0]]));
}

#[test]
fn sub_factor_is_the_signed_minor() {
    let m = mat3([[1.0, 3.0, 3.0], [4.0, 5.0, 6.0], [7.0, 8.0, 9.0]]);
    assert_eq!(m.sub_factor(0, 0), fx(-3.0));
    assert_eq!(m.sub_factor(0, 1), fx(6.0));
    assert_eq!(m.sub_factor(0, 2), fx(-3.0));
    assert_eq!(m.sub_factor(1, 0), fx(-3.0));
    assert_eq!(m.sub_factor(1, 1), fx(-12.0));
    assert_eq!(m.sub_factor(1, 2), fx(13.0));
    assert_eq!(m.sub_factor(2, 2), fx(-7.0));
    assert_eq!(m.sub_factor(7, 2), fx(7.0));
}

#[test]
fn inverse_of_a_diagonal_matrix_is_exact() {
    let m = mat3([[2.0, 0.0, 0.0], [0.0, 4.0, 0.0], [0.0, 0.0, -8.0]]);
    let inv = m.invert().unwrap();
    assert_eq!(inv, mat3([[0.5, 0.0, 0.0], [0.0, 0.25, 0.0], [0.0, 0.0, -0.125]]));
    assert_eq!(m * inv, Mat3::identity());
    assert_eq!(inv * m, Mat3::identity());
}

#[test]
fn inverse_is_none_for_parallel_columns() {
    let m = Mat3::from_cols(&vec3(1.0, 1.0, 0.0), &vec3(2.0, 2.0, 0.0), &vec3(0.0, 0.0, 1.0));
    assert!(m.invert().is_none());
    assert!(Mat3::zero().invert().is_none());
}

#[test]
fn equals_compares_within_epsilon() {
    let m = mat3([[1.0, 2.0, 3.0], [4.0, 5.0, 6.0], [7.0, 8.0, 9.0]]);
    let n = mat3([[1.0, 2.0, 3.0], [4.0, 5.25, 6.0], [7.0, 8.0, 9.0]]);
    assert!(m.equals(&n, fx(0.25)));
    assert!(n.equals(&m, fx(0.25)));
    assert!(!m.equals(&n, fx(0.2)));
    assert!(m.equals(&m, fx(0.0)));
}

#[test]
fn quarter_turns_are_exact() {
    let quarter = rust3d::math::Angle::new(fx(1.0), fx(0.0));
    let none = rust3d::math::Angle::new(fx(0.0), fx(1.0));
    let about_z = Mat3::rot_x_y_z(none, none, quarter);
    assert_eq!(about_z * vec3(1.0, 0.0, 0.0), vec3(0.0, 1.0, 0.0));
    let about_x = Mat3::rot_x_y_z(quarter, none, none);
    assert_eq!(about_x * vec3(0.0, 1.0, 0.0), vec3(0.0, 0.0, 1.0));
    let about_y = Mat3::rot_x_y_z(none, quarter, none);
    assert_eq!(about_y * vec3(0.0, 0.0, 1.0), vec3(1.0, 0.0, 0.0));
    let x_then_z = Mat3::rot_x_y_z(quarter, none, quarter);
    assert_eq!(x_then_z * vec3(0.0, 1.0, 0.0), vec3(0.0, 0.0, 1.0));
    assert_eq!(x_then_z * vec3(0.0, 0.0, 1.0), vec3(1.0, 0.0, 0.0));
    assert_eq!(Mat3::rot_x_y_z(none, none, none), Mat3::identity());
}

#[test]
fn line_point_at_follows_the_unit_direction() {
    let line = rust3d::math::Line::new(vec3(1.0, 1.0, 1.0), vec3(0.0, 0.0, 9.0));
    assert_eq!(line.direction, vec3(0.0, 0.0, 1.0));
    assert_eq!(line.point_at(fx(2.5)), vec3(1.0, 1.0, 3.5));
}

#[test]
fn whole_matrices_round_trip_within_units() {
    let mut rng = StdRng::seed_from_u64(7);
    let mut inverted = 0;
    for _ in 0..200 {
        let mut rows = [[0.0f64; 3]; 3];
        for row in rows.iter_mut() {
            for entry in row.iter_mut() {
                *entry = rng.gen_range(-512i32..=512) as f64;
            }
        }
        let m = mat3(rows);
        if let Some(inv) = m.invert() {
            inverted += 1;
            let right = m * inv;
            let left = inv * m;
            for i in 0..3 {
                for k in 0..3 {
                    let wanted: i64 = if i == k { 4294967296 } else { 0 };
                    assert!((right.coords[i][k].raw - wanted).abs() <= 1535);
                    assert!((left.coords[i][k].raw - wanted).abs() <= 1535);
                }
            }
        }
    }
    assert!(inverted > 150);
}

#[test]
fn dependent_rows_give_no_inverse() {
    let mut rng = StdRng::seed_from_u64(11);
    for _ in 0..100 {
        let a = [
            rng.gen_range(-100i32..=100) as f64,
            rng.gen_range(-100i32..=100) as f64,
            rng.gen_range(-100i32..=100) as f64,
        ];
        let b = [
            rng.gen_range(-100i32..=100) as f64,
            rng.gen_range(-100i32..=100) as f64,
            rng.gen_range(-100i32..=100) as f64,
        ];
        let x = rng.gen_range(-2i32..=2) as f64;
        let y = rng.gen_range(-2i32..=2) as f64;
        let c = [x * a[0] + y * b[0], x * a[1] + y * b[1], x * a[2] + y * b[2]];
        assert!(mat3([a, b, c]).invert().is_none());
        assert!(mat3([c, a, b]).invert().is_none());
        assert!(mat3([a, c, b]).invert().is_none());
    }
}

#[test]
fn normalize_of_a_short_vector_is_exact() {
    let v = Vec3::new(Fixed::from_raw(98304), Fixed::from_raw(0), Fixed::from_raw(0));
    assert!(v.normalizable());
    assert_eq!(v.norm().raw, 98304);
    assert_eq!(v.normalize(), vec3(1.0, 0.0, 0.0));
    assert_eq!(v.normalize().norm(), fx(1.0));
}

#[test]
fn normalize_of_a_vector_of_a_few_units_is_coarse() {
    let v = Vec3::new(Fixed::from_raw(1), Fixed::from_raw(1), Fixed::from_raw(0));
    assert_eq!(v.norm().raw, 1);
    assert_eq!(v.normalize(), vec3(1.0, 1.0, 0.0));
    assert_eq!(v.normalize().norm().raw, 6074000999);
}

#[test]
fn norm_is_taken_from_the_exact_squares() {
    let v = Vec3::new(Fixed::from_raw(30000), Fixed::from_raw(40000), Fixed::from_raw(0));
    assert_eq!(v.norm2().raw, 0);
    assert_eq!(v.norm().raw, 50000);
    let big = Vec3::new(Fixed::from_raw(i64::MIN), Fixed::from_raw(i64::MAX), Fixed::from_raw(i64::MAX));
    assert_eq!(big.norm().raw, i64::MAX);
    let large = vec3(300000000.0, 400000000.0, 0.0);
    assert_eq!(large.norm(), fx(500000000.0));
}

#[test]
fn well_conditioned_matrices_round_trip_within_the_bound() {
    let mut rng = StdRng::seed_from_u64(99);
    let mut inverted = 0;
    for _ in 0..1000 {
        let mut rows = [[0.0f64; 3]; 3];
        for row in rows.iter_mut() {
            for entry in row.iter_mut() {
                *entry = rng.gen::<f32>() as f64 * 2.0 - 1.0;
            }
        }
        let m = mat3(rows);
        let determinant = m.coords[0][0] * m.sub_factor(0, 0)
            + m.coords[0][1] * m.sub_factor(0, 1)
            + m.coords[0][2] * m.sub_factor(0, 2);
        if determinant.abs().raw < 262144 {
            continue;
        }
        let inv = m.invert().unwrap();
        inverted += 1;
        let right = m * inv;
        let left = inv * m;
        for i in 0..3 {
            for k in 0..3 {
                let wanted: i64 = if i == k { 4294967296 } else { 0 };
                assert!((right.coords[i][k].raw - wanted).abs() <= 245766);
                assert!((left.coords[i][k].raw - wanted).abs() <= 245766);
            }
        }
        assert!(right.equals(&Mat3::identity(), fx(0.0001)));
        assert!(left.equals(&Mat3::identity(), fx(0.0001)));
    }
    assert!(inverted > 900);
}

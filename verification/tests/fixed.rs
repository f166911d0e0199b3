use rust3d::fixed::{Fixed, SCALE};

fn fx(x: f64) -> Fixed {
    Fixed::from_raw((x * 4294967296.0).round() as i64)
}

#[test]
fn one_is_two_to_the_thirty_second_units() {
    assert_eq!(SCALE, 1i64 << 32);
    assert_eq!(Fixed::one().raw, 4294967296);
    assert_eq!(Fixed::half().raw, 2147483648);
    assert_eq!(Fixed::zero().raw, 0);
    assert_eq!(Fixed::from_int(-3).raw, -3 * 4294967296);
    assert_eq!(Fixed::from_int(i32::MIN).raw, i64::MIN);
    assert_eq!(Fixed::from_raw(17).raw, 17);
}

#[test]
fn products_round_toward_zero() {
    let third = Fixed::from_raw(1431655765);
    assert_eq!((third * third).raw, 477218588);
    assert_eq!(((-third) * third).raw, -477218588);
    assert_eq!((Fixed::from_raw(3) * Fixed::half()).raw, 1);
    assert_eq!((Fixed::from_raw(-3) * Fixed::half()).raw, -1);
    assert_eq!(fx(1.5) * fx(-2.5), fx(-3.75));
}

#[test]
fn quotients_round_toward_zero() {
    assert_eq!((Fixed::from_int(1) / Fixed::from_int(3)).raw, 1431655765);
    assert_eq!((Fixed::from_int(-1) / Fixed::from_int(3)).raw, -1431655765);
    assert_eq!((Fixed::from_int(1) / Fixed::from_int(-3)).raw, -1431655765);
    assert_eq!((Fixed::from_int(-1) / Fixed::from_int(-3)).raw, 1431655765);
    assert_eq!(fx(7.5) / fx(2.5), fx(3.0));
}

#[test]
fn operations_saturate() {
    let top = Fixed::from_raw(i64::MAX);
    let bottom = Fixed::from_raw(i64::MIN);
    assert_eq!(top + top, top);
    assert_eq!(bottom + bottom, bottom);
    assert_eq!(bottom - top, bottom);
    assert_eq!(top * top, top);
    assert_eq!(top * bottom, bottom);
    assert_eq!(-bottom, top);
    assert_eq!(bottom.abs(), top);
    assert_eq!(top / Fixed::from_raw(1), top);
    assert_eq!(bottom / Fixed::from_raw(1), bottom);
    assert_eq!(bottom / Fixed::from_raw(-1), top);
}

#[test]
fn square_roots_round_down() {
    assert_eq!(fx(16.0).sqrt(), fx(4.0));
    assert_eq!(fx(0.25).sqrt(), fx(0.5));
    assert_eq!(fx(0.0).sqrt(), fx(0.0));
    assert_eq!(fx(2.0).sqrt().raw, 6074000999);
    assert_eq!(Fixed::from_raw(1).sqrt().raw, 65536);
    assert_eq!(Fixed::from_raw(i64::MAX).sqrt().raw, 199032864766430);
}

#[test]
fn bytes_keep_the_whole_part_within_range() {
    assert_eq!(fx(-4.0).to_byte(), 0);
    assert_eq!(fx(0.0).to_byte(), 0);
    assert_eq!(fx(0.999).to_byte(), 0);
    assert_eq!(fx(127.5).to_byte(), 127);
    assert_eq!(fx(254.999).to_byte(), 254);
    assert_eq!(fx(255.0).to_byte(), 255);
    assert_eq!(fx(637.5).to_byte(), 255);
}

#[test]
fn counts_become_scalars() {
    assert_eq!(Fixed::from_count(0), fx(0.0));
    assert_eq!(Fixed::from_count(800), fx(800.0));
    assert_eq!(Fixed::from_count(2147483647).raw, 2147483647 * 4294967296);
    assert_eq!(Fixed::from_count(2147483648).raw, i64::MAX);
}

#[test]
fn magnitude_and_negation() {
    assert_eq!(fx(-2.5).abs(), fx(2.5));
    assert_eq!(fx(2.5).abs(), fx(2.5));
    assert_eq!(-fx(2.5), fx(-2.5));
    assert!(fx(-2.5) < fx(2.5));
}

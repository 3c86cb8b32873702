use spring_layout::fixed::{Fixed, FRACTION_BITS, SCALE};

fn raw(n: i64) -> Fixed {
    Fixed::from_raw(n)
}

#[test]
fn scale_is_two_to_the_fraction_bits() {
    assert_eq!(SCALE, 1i64 << FRACTION_BITS);
    assert_eq!(Fixed::one().raw(), SCALE);
    assert_eq!(Fixed::zero().raw(), 0);
}

#[test]
fn from_int_scales_by_two_to_the_twenty_four() {
    assert_eq!(Fixed::from_int(3).raw(), 3 * SCALE);
    assert_eq!(Fixed::from_int(-3).raw(), -3 * SCALE);
    assert_eq!(Fixed::from_int(0), Fixed::zero());
    assert_eq!(Fixed::from_int(1), Fixed::one());
}

#[test]
fn from_int_saturates() {
    assert_eq!(Fixed::from_int(i64::MAX).raw(), i64::MAX);
    assert_eq!(Fixed::from_int(i64::MIN).raw(), i64::MIN);
    assert_eq!(Fixed::from_int(1 << 39).raw(), i64::MAX);
    assert_eq!(Fixed::from_int((1 << 39) - 1).raw(), ((1i64 << 39) - 1) << 24);
    assert_eq!(Fixed::from_int(-(1 << 39)).raw(), i64::MIN);
}

#[test]
fn from_ratio_rounds_toward_zero() {
    assert_eq!(Fixed::from_ratio(1, 3), Some(raw(5592405)));
    assert_eq!(Fixed::from_ratio(-1, 3), Some(raw(-5592405)));
    assert_eq!(Fixed::from_ratio(1, -3), Some(raw(-5592405)));
    assert_eq!(Fixed::from_ratio(-1, -3), Some(raw(5592405)));
    assert_eq!(Fixed::from_ratio(7, 10), Some(raw(11744051)));
    assert_eq!(Fixed::from_ratio(6, 3), Some(Fixed::from_int(2)));
}

#[test]
fn from_ratio_of_zero_denominator_is_none() {
    assert_eq!(Fixed::from_ratio(1, 0), None);
    assert_eq!(Fixed::from_ratio(0, 0), None);
    assert_eq!(Fixed::from_ratio(0, 5), Some(Fixed::zero()));
}

#[test]
fn saturating_add_and_sub_are_exact_in_range() {
    assert_eq!(raw(5).saturating_add(raw(-7)), raw(-2));
    assert_eq!(raw(5).saturating_sub(raw(-7)), raw(12));
    assert_eq!(raw(i64::MAX - 1).saturating_add(raw(1)), raw(i64::MAX));
    assert_eq!(raw(i64::MIN + 1).saturating_sub(raw(1)), raw(i64::MIN));
}

#[test]
fn saturating_add_and_sub_stop_at_the_ends() {
    assert_eq!(raw(i64::MAX).saturating_add(raw(1)), raw(i64::MAX));
    assert_eq!(raw(i64::MIN).saturating_add(raw(-1)), raw(i64::MIN));
    assert_eq!(raw(i64::MIN).saturating_sub(raw(1)), raw(i64::MIN));
    assert_eq!(raw(0).saturating_sub(raw(i64::MIN)), raw(i64::MAX));
    assert_eq!(raw(i64::MAX).saturating_sub(raw(i64::MIN)), raw(i64::MAX));
}

#[test]
fn saturating_neg_of_the_least_value_is_the_greatest() {
    assert_eq!(raw(i64::MIN).saturating_neg(), raw(i64::MAX));
    assert_eq!(raw(i64::MAX).saturating_neg(), raw(-i64::MAX));
    assert_eq!(raw(17).saturating_neg(), raw(-17));
}

#[test]
fn saturating_mul_is_exact_on_representable_products() {
    // 1.5 * 2.5 = 3.75
    assert_eq!(raw(25165824).saturating_mul(raw(41943040)), raw(62914560));
    assert_eq!(Fixed::from_int(-4).saturating_mul(Fixed::from_int(5)), Fixed::from_int(-20));
    assert_eq!(Fixed::one().saturating_mul(raw(123456789)), raw(123456789));
    assert_eq!(Fixed::zero().saturating_mul(raw(i64::MIN)), Fixed::zero());
}

#[test]
fn saturating_mul_rounds_toward_zero() {
    let half = raw(SCALE / 2);
    assert_eq!(raw(3).saturating_mul(half), raw(1));
    assert_eq!(raw(-3).saturating_mul(half), raw(-1));
    assert_eq!(raw(1).saturating_mul(raw(1)), raw(0));
    assert_eq!(raw(-1).saturating_mul(raw(1)), raw(0));
    assert_eq!(raw(-1).saturating_mul(raw(SCALE - 1)), raw(0));
}

#[test]
fn saturating_mul_saturates() {
    assert_eq!(raw(i64::MAX).saturating_mul(Fixed::from_int(2)), raw(i64::MAX));
    assert_eq!(raw(i64::MAX).saturating_mul(Fixed::from_int(-2)), raw(i64::MIN));
    assert_eq!(raw(i64::MIN).saturating_mul(raw(i64::MIN)), raw(i64::MAX));
    assert_eq!(raw(i64::MIN).saturating_mul(Fixed::one()), raw(i64::MIN));
}

#[test]
fn checked_div_rounds_toward_zero() {
    assert_eq!(Fixed::one().checked_div(Fixed::from_int(3)), Some(raw(5592405)));
    assert_eq!(Fixed::from_int(-1).checked_div(Fixed::from_int(3)), Some(raw(-5592405)));
    // 7 / -2 = -3.5
    assert_eq!(Fixed::from_int(7).checked_div(Fixed::from_int(-2)), Some(raw(-58720256)));
    assert_eq!(Fixed::from_int(280).checked_div(Fixed::from_int(100)), Some(raw(46976204)));
}

#[test]
fn checked_div_by_zero_is_none() {
    assert_eq!(Fixed::one().checked_div(Fixed::zero()), None);
    assert_eq!(Fixed::zero().checked_div(Fixed::zero()), None);
    assert_eq!(raw(i64::MIN).checked_div(Fixed::zero()), None);
}

#[test]
fn checked_div_saturates() {
    assert_eq!(raw(i64::MAX).checked_div(raw(1)), Some(raw(i64::MAX)));
    assert_eq!(raw(i64::MAX).checked_div(raw(-1)), Some(raw(i64::MIN)));
    assert_eq!(raw(i64::MIN).checked_div(raw(-1)), Some(raw(i64::MAX)));
    assert_eq!(raw(i64::MIN).checked_div(Fixed::one()), Some(raw(i64::MIN)));
}

#[test]
fn abs_diff_covers_the_whole_range() {
    assert_eq!(raw(3).abs_diff(raw(10)), 7);
    assert_eq!(raw(10).abs_diff(raw(3)), 7);
    assert_eq!(raw(-4).abs_diff(raw(-4)), 0);
    assert_eq!(raw(i64::MIN).abs_diff(raw(i64::MAX)), u64::MAX);
    assert_eq!(raw(i64::MAX).abs_diff(raw(i64::MIN)), u64::MAX);
}

#[test]
fn within_includes_the_tolerance_itself() {
    assert!(raw(10).within(raw(13), raw(3)));
    assert!(raw(13).within(raw(10), raw(3)));
    assert!(!raw(10).within(raw(14), raw(3)));
    assert!(raw(10).within(raw(10), raw(0)));
}

#[test]
fn within_a_negative_tolerance_admits_nothing() {
    assert!(!raw(10).within(raw(10), raw(-1)));
    assert!(!raw(i64::MIN).within(raw(i64::MAX), raw(-1)));
    assert!(!raw(i64::MIN).within(raw(i64::MAX - 1), raw(i64::MAX)));
    assert!(raw(0).within(raw(i64::MAX), raw(i64::MAX)));
}

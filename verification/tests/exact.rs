use ga3::exact::{
    int_sqrt, lift_up, narrow, scale_down, shl_div, sum4_scaled, sum_of_squares, wide_mul,
    wide_shl_div, LIMIT, PLACES, TOP, UNIT,
};

#[test]
fn constants_agree() {
    assert_eq!(LIMIT, i64::MAX);
    assert_eq!(UNIT, 1i64 << PLACES);
    assert_eq!(TOP, 1u128 << 126);
}

#[test]
fn wide_mul_is_exact_at_the_limit() {
    assert_eq!(wide_mul(LIMIT, LIMIT), (i64::MAX as i128) * (i64::MAX as i128));
    assert_eq!(wide_mul(-LIMIT, LIMIT), -(i64::MAX as i128) * (i64::MAX as i128));
    assert_eq!(wide_mul(-3, 7), -21);
}

#[test]
fn narrow_keeps_what_can_be_negated() {
    assert_eq!(narrow(0), Some(0));
    assert_eq!(narrow(i64::MAX as i128), Some(i64::MAX));
    assert_eq!(narrow(-(i64::MAX as i128)), Some(-i64::MAX));
    assert_eq!(narrow(i64::MAX as i128 + 1), None);
    assert_eq!(narrow(i64::MIN as i128), None);
}

#[test]
fn scale_down_rounds_towards_zero() {
    let u = UNIT as i128;
    assert_eq!(scale_down(0), Some(0));
    assert_eq!(scale_down(u), Some(1));
    assert_eq!(scale_down(u - 1), Some(0));
    assert_eq!(scale_down(-u + 1), Some(0));
    assert_eq!(scale_down(-u), Some(-1));
    assert_eq!(scale_down(7 * u + 5), Some(7));
    assert_eq!(scale_down(-7 * u - 5), Some(-7));
    assert_eq!(scale_down((i64::MAX as i128) * u + u - 1), Some(i64::MAX));
    assert_eq!(scale_down((i64::MAX as i128 + 1) * u), None);
    assert_eq!(scale_down(-(i64::MAX as i128 + 1) * u), None);
}

#[test]
fn sum4_scaled_adds_then_divides() {
    let u = UNIT as i128;
    assert_eq!(sum4_scaled(u, 2 * u, 3 * u, -4 * u), Some(2));
    assert_eq!(sum4_scaled(u / 2, u / 2, 0, 0), Some(1));
    assert_eq!(sum4_scaled(u / 2, u / 4, 0, 0), Some(0));
    assert_eq!(sum4_scaled(-u / 2, -u / 4, 0, 0), Some(0));
    let big = wide_mul(LIMIT, LIMIT);
    assert_eq!(sum4_scaled(big, -big, big, -big), Some(0));
    assert_eq!(sum4_scaled(big, big, -big, -big), Some(0));
}

#[test]
fn sum4_scaled_refuses_what_does_not_fit() {
    let big = wide_mul(LIMIT, LIMIT);
    assert_eq!(sum4_scaled(big, big, big, big), None);
    assert_eq!(sum4_scaled(-big, -big, -big, -big), None);
    assert_eq!(sum4_scaled(big, 0, 0, 0), None);
    let edge = (i64::MAX as i128) * (UNIT as i128);
    assert_eq!(sum4_scaled(edge, 0, 0, 0), Some(i64::MAX));
    assert_eq!(sum4_scaled(edge, UNIT as i128, 0, 0), None);
}

#[test]
fn shl_div_divides_after_shifting() {
    assert_eq!(shl_div(0, 44, 7), Some(0));
    assert_eq!(shl_div(1, 0, 1), Some(1));
    assert_eq!(shl_div(1, 44, 1), Some(UNIT));
    assert_eq!(shl_div(1, 44, 3), Some(5864062014805));
    assert_eq!(shl_div(10, 3, 7), Some(11));
    assert_eq!(shl_div(1, 62, 1), Some(1i64 << 62));
    assert_eq!(shl_div(u128::MAX, 0, u128::MAX), Some(1));
    assert_eq!(shl_div(u128::MAX - 1, 10, u128::MAX), Some(1023));
}

#[test]
fn shl_div_refuses_what_does_not_fit() {
    assert_eq!(shl_div(1, 63, 1), None);
    assert_eq!(shl_div(u128::MAX, 0, 1), None);
    assert_eq!(shl_div(i64::MAX as u128, 0, 1), Some(i64::MAX));
    assert_eq!(shl_div(i64::MAX as u128 + 1, 0, 1), None);
    assert_eq!(shl_div(3, 100, 5), None);
}

#[test]
fn wide_shl_div_rounds_towards_zero() {
    assert_eq!(wide_shl_div(1, 44, 3), Some(5864062014805));
    assert_eq!(wide_shl_div(-1, 44, 3), Some(-5864062014805));
    assert_eq!(wide_shl_div(-10, 3, 7), Some(-11));
    assert_eq!(wide_shl_div(0, 44, 3), Some(0));
    assert_eq!(wide_shl_div(-1, 63, 1), None);
    assert_eq!(wide_shl_div(-1, 62, 1), Some(-(1i64 << 62)));
}

#[test]
fn lift_up_brings_a_number_to_the_top() {
    assert_eq!(lift_up(1), (1u128 << 126, 63));
    assert_eq!(lift_up(2), (1u128 << 127, 63));
    assert_eq!(lift_up(4), (1u128 << 126, 62));
    assert_eq!(lift_up(TOP), (TOP, 0));
    assert_eq!(lift_up(TOP - 1), ((TOP - 1) * 4, 1));
    assert_eq!(lift_up(u128::MAX), (u128::MAX, 0));
    assert_eq!(lift_up(3 << 40), (3u128 << 126, 43));
}

#[test]
fn sum_of_squares_of_the_largest_components() {
    let m = i64::MAX as u128;
    assert_eq!(sum_of_squares(LIMIT, -LIMIT, LIMIT, -LIMIT), 4 * m * m);
    assert_eq!(sum_of_squares(1, 2, 3, 4), 30);
    assert_eq!(sum_of_squares(0, 0, 0, 0), 0);
}

#[test]
fn int_sqrt_of_small_numbers() {
    assert_eq!(int_sqrt(0), 0);
    assert_eq!(int_sqrt(1), 1);
    assert_eq!(int_sqrt(2), 1);
    assert_eq!(int_sqrt(3), 1);
    assert_eq!(int_sqrt(4), 2);
    assert_eq!(int_sqrt(15), 3);
    assert_eq!(int_sqrt(16), 4);
    assert_eq!(int_sqrt(17), 4);
}

#[test]
fn int_sqrt_around_a_large_square() {
    let r: u128 = u64::MAX as u128;
    assert_eq!(int_sqrt(r * r), u64::MAX);
    assert_eq!(int_sqrt(r * r - 1), u64::MAX - 1);
    assert_eq!(int_sqrt(u128::MAX), u64::MAX);
    assert_eq!(int_sqrt(1u128 << 64), 1u64 << 32);
    assert_eq!(int_sqrt((1u128 << 64) - 1), (1u64 << 32) - 1);
}

#[test]
fn int_sqrt_brackets_its_argument() {
    let mut x: u128 = 1;
    while x < (1u128 << 100) {
        let r = int_sqrt(x) as u128;
        assert!(r * r <= x);
        assert!(x < (r + 1) * (r + 1));
        x = x * 3 + 1;
    }
}

use ga3::error::VersorError;
use ga3::even::EvenVersor;
use ga3::exact::UNIT;
use ga3::odd::OddVersor;

fn even(sca: i64, yz: i64, zx: i64, xy: i64) -> EvenVersor {
    EvenVersor::new(sca * UNIT, yz * UNIT, zx * UNIT, xy * UNIT).unwrap()
}

fn odd(xyz: i64, x: i64, y: i64, z: i64) -> OddVersor {
    OddVersor::new(xyz * UNIT, x * UNIT, y * UNIT, z * UNIT).unwrap()
}

#[test]
fn even_times_even_follows_the_table() {
    assert_eq!(even(1, 2, 3, 4).mul_even(even(5, 6, 7, 8)), Ok(even(-60, 20, 14, 32)));
}

#[test]
fn even_times_odd_follows_the_table() {
    assert_eq!(even(1, 2, 3, 4).mul_odd(odd(5, 6, 7, 8)), Ok(odd(70, 0, -16, -8)));
}

#[test]
fn odd_times_odd_follows_the_table() {
    assert_eq!(odd(1, 2, 3, 4).mul_odd(odd(5, 6, 7, 8)), Ok(even(60, 12, 30, 24)));
}

#[test]
fn odd_times_even_follows_the_table() {
    assert_eq!(odd(1, 2, 3, 4).mul_even(even(5, 6, 7, 8)), Ok(odd(70, 8, 0, 16)));
}

#[test]
fn product_of_fractions_is_exact_when_it_has_a_place() {
    let half = EvenVersor::new(UNIT / 2, 0, 0, 0).unwrap();
    assert_eq!(half.mul_even(half), Ok(EvenVersor { sca: UNIT / 4, yz: 0, zx: 0, xy: 0 }));
}

#[test]
fn product_is_rounded_towards_zero() {
    let half = EvenVersor::new(UNIT / 2, 0, 0, 0).unwrap();
    let three = EvenVersor::new(3, 0, 0, 0).unwrap();
    let minus_three = EvenVersor::new(-3, 0, 0, 0).unwrap();
    assert_eq!(three.mul_even(half), Ok(EvenVersor { sca: 1, yz: 0, zx: 0, xy: 0 }));
    assert_eq!(minus_three.mul_even(half), Ok(EvenVersor { sca: -1, yz: 0, zx: 0, xy: 0 }));
}

#[test]
fn product_that_does_not_fit_is_an_overflow() {
    let big = even(1000, 0, 0, 0);
    assert_eq!(big.mul_even(big), Err(VersorError::Overflow));
    let fits = even(700, 0, 0, 0);
    assert_eq!(fits.mul_even(fits), Ok(even(490000, 0, 0, 0)));
}

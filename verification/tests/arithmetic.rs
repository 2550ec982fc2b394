use ga3::error::VersorError;
use ga3::even::EvenVersor;
use ga3::exact::UNIT;
use ga3::odd::OddVersor;
use ga3::ratio::Ratio;
use ga3::versor::Versor;

const SQUARE: i128 = (UNIT as i128) * (UNIT as i128);

fn even(sca: i64, yz: i64, zx: i64, xy: i64) -> EvenVersor {
    EvenVersor::new(sca * UNIT, yz * UNIT, zx * UNIT, xy * UNIT).unwrap()
}

fn odd(xyz: i64, x: i64, y: i64, z: i64) -> OddVersor {
    OddVersor::new(xyz * UNIT, x * UNIT, y * UNIT, z * UNIT).unwrap()
}

#[test]
fn new_refuses_the_value_that_cannot_be_negated() {
    assert_eq!(EvenVersor::new(i64::MIN, 0, 0, 0), None);
    assert_eq!(EvenVersor::new(0, 0, 0, i64::MIN), None);
    assert_eq!(OddVersor::new(i64::MIN, 0, 0, 0), None);
    assert_eq!(OddVersor::new(0, 0, i64::MIN, 0), None);
    assert_eq!(Ratio::new(i128::MIN, 1), None);
}

#[test]
fn ratio_refuses_a_denominator_that_is_not_positive() {
    assert_eq!(Ratio::new(1, 0), None);
    assert_eq!(Ratio::new(1, -2), None);
    assert_eq!(Ratio::new(-3, 4), Some(Ratio { num: -3, den: 4 }));
}

#[test]
fn new_keeps_the_parts_it_is_given() {
    assert_eq!(EvenVersor::new(1, -2, 3, -4), Some(EvenVersor { sca: 1, yz: -2, zx: 3, xy: -4 }));
    assert_eq!(
        OddVersor::new(-i64::MAX, 2, 3, i64::MAX),
        Some(OddVersor { xyz: -i64::MAX, x: 2, y: 3, z: i64::MAX })
    );
}

#[test]
fn from_sca_is_a_pure_scalar() {
    let s = Ratio::new(-3, 4).unwrap();
    assert_eq!(
        EvenVersor::from_sca(s),
        Ok(EvenVersor { sca: -3 * (UNIT / 4), yz: 0, zx: 0, xy: 0 })
    );
}

#[test]
fn from_sca_rounds_towards_zero() {
    let third = Ratio::new(1, 3).unwrap();
    assert_eq!(EvenVersor::from_sca(third).unwrap().sca, 5864062014805);
    let minus_third = Ratio::new(-1, 3).unwrap();
    assert_eq!(EvenVersor::from_sca(minus_third).unwrap().sca, -5864062014805);
}

#[test]
fn from_sca_that_does_not_fit_is_an_overflow() {
    assert_eq!(EvenVersor::from_sca(Ratio::new(524288, 1).unwrap()), Err(VersorError::Overflow));
    assert_eq!(EvenVersor::from_sca(Ratio::new(524287, 1).unwrap()), Ok(even(524287, 0, 0, 0)));
    assert_eq!(EvenVersor::from_sca(Ratio::new(i128::MAX, 1).unwrap()), Err(VersorError::Overflow));
}

#[test]
fn from_bivec_is_a_pure_bivector() {
    assert_eq!(
        EvenVersor::from_bivec(1, -2, 3),
        EvenVersor { sca: 0, yz: UNIT, zx: -2 * UNIT, xy: 3 * UNIT }
    );
}

#[test]
fn from_vec_is_a_pure_vector() {
    assert_eq!(
        OddVersor::from_vec(1, -2, 3),
        OddVersor { xyz: 0, x: UNIT, y: -2 * UNIT, z: 3 * UNIT }
    );
}

#[test]
fn projections_zero_the_other_grade() {
    let e = EvenVersor::new(1, 2, 3, 4).unwrap();
    assert_eq!(e.sca(), EvenVersor { sca: 1, yz: 0, zx: 0, xy: 0 });
    assert_eq!(e.bivec(), EvenVersor { sca: 0, yz: 2, zx: 3, xy: 4 });
    let o = OddVersor::new(1, 2, 3, 4).unwrap();
    assert_eq!(o.vec(), OddVersor { xyz: 0, x: 2, y: 3, z: 4 });
}

#[test]
fn projections_add_up_to_the_element() {
    let e = even(1, 2, 3, 4);
    assert_eq!(e.sca().add(e.bivec()), Ok(e));
}

#[test]
fn add_is_componentwise() {
    assert_eq!(even(1, 2, 3, 4).add(even(5, 6, 7, 8)), Ok(even(6, 8, 10, 12)));
    assert_eq!(odd(1, 2, 3, 4).add(odd(5, 6, 7, 8)), Ok(odd(6, 8, 10, 12)));
    let a = EvenVersor::new(1, -2, 3, -4).unwrap();
    let b = EvenVersor::new(10, 20, 30, 40).unwrap();
    assert_eq!(a.add(b), Ok(EvenVersor { sca: 11, yz: 18, zx: 33, xy: 36 }));
}

#[test]
fn sub_is_componentwise() {
    assert_eq!(even(1, 2, 3, 4).sub(even(5, 6, 7, 8)), Ok(even(-4, -4, -4, -4)));
    assert_eq!(odd(1, 2, 3, 4).sub(odd(5, 6, 7, 8)), Ok(odd(-4, -4, -4, -4)));
}

#[test]
fn sub_of_itself_is_zero() {
    let e = even(1, 2, 3, 4);
    assert_eq!(e.sub(e), Ok(even(0, 0, 0, 0)));
}

#[test]
fn add_that_does_not_fit_is_an_overflow() {
    let big = EvenVersor::new(i64::MAX, 0, 0, 0).unwrap();
    assert_eq!(big.add(big), Err(VersorError::Overflow));
    let one = EvenVersor::new(1, 0, 0, 0).unwrap();
    assert_eq!(EvenVersor::new(i64::MAX - 1, 0, 0, 0).unwrap().add(one), Ok(big));
    assert_eq!(EvenVersor::new(-i64::MAX, 0, 0, 0).unwrap().sub(one), Err(VersorError::Overflow));
    let wide = OddVersor::new(0, i64::MAX, 0, 0).unwrap();
    assert_eq!(wide.add(wide), Err(VersorError::Overflow));
}

#[test]
fn mag2_is_the_sum_of_squares() {
    assert_eq!(even(1, 2, 3, 4).mag2(), Ok(Ratio { num: 30 * SQUARE, den: SQUARE }));
    assert_eq!(odd(1, -2, 3, -4).mag2(), Ok(Ratio { num: 30 * SQUARE, den: SQUARE }));
    let e = EvenVersor::new(1, 2, 3, 4).unwrap();
    assert_eq!(e.mag2(), Ok(Ratio { num: 30, den: SQUARE }));
}

#[test]
fn mag2_of_zero_is_zero() {
    assert_eq!(even(0, 0, 0, 0).mag2(), Ok(Ratio { num: 0, den: SQUARE }));
    assert_eq!(odd(0, 0, 0, 0).mag2(), Ok(Ratio { num: 0, den: SQUARE }));
}

#[test]
fn mag2_of_large_components() {
    let m = even(65536, 256, 0, 0).mag2().unwrap();
    assert_eq!(m.num, (65536 * 65536 + 256 * 256) * SQUARE);
    let m = i64::MAX;
    assert_eq!(EvenVersor::new(m, m, m, m).unwrap().mag2(), Err(VersorError::Overflow));
    let one = EvenVersor::new(m, 0, 0, 0).unwrap().mag2().unwrap();
    assert_eq!(one.num, (m as i128) * (m as i128));
}

#[test]
fn rev_negates_the_bivector() {
    assert_eq!(even(1, 2, -3, 4).rev(), even(1, -2, 3, -4));
}

#[test]
fn rev_negates_the_trivector() {
    assert_eq!(odd(1, 2, -3, 4).rev(), odd(-1, 2, -3, 4));
}

#[test]
fn inv_is_the_reverse_over_the_squared_magnitude() {
    assert_eq!(
        even(1, 2, 3, 4).inv(),
        Ok(EvenVersor {
            sca: 586406201480,
            yz: -1172812402961,
            zx: -1759218604441,
            xy: -2345624805922,
        })
    );
    assert_eq!(even(0, 0, 0, 2).inv(), Ok(EvenVersor { sca: 0, yz: 0, zx: 0, xy: -UNIT / 2 }));
    assert_eq!(odd(2, 0, 0, 0).inv(), Ok(OddVersor { xyz: -UNIT / 2, x: 0, y: 0, z: 0 }));
    assert_eq!(odd(0, 0, 4, 0).inv(), Ok(OddVersor { xyz: 0, x: 0, y: UNIT / 4, z: 0 }));
}

#[test]
fn inv_of_zero_is_degenerate() {
    assert_eq!(even(0, 0, 0, 0).inv(), Err(VersorError::DegenerateVersor));
    assert_eq!(odd(0, 0, 0, 0).inv(), Err(VersorError::DegenerateVersor));
}

#[test]
fn inv_that_does_not_fit_is_an_overflow() {
    let tiny = EvenVersor::new(1, 0, 0, 0).unwrap();
    assert_eq!(tiny.inv(), Err(VersorError::Overflow));
    let small = EvenVersor::new(1 << 26, 0, 0, 0).unwrap();
    assert_eq!(small.inv(), Ok(EvenVersor { sca: 1 << 62, yz: 0, zx: 0, xy: 0 }));
    let smaller = OddVersor::new(0, 1 << 25, 0, 0).unwrap();
    assert_eq!(smaller.inv(), Err(VersorError::Overflow));
}

#[test]
fn normalize_of_an_axis_is_exact() {
    assert_eq!(odd(0, 5, 0, 0).normalize(), Ok(odd(0, 1, 0, 0)));
    assert_eq!(even(-7, 0, 0, 0).normalize(), Ok(even(-1, 0, 0, 0)));
    assert_eq!(OddVersor::new(0, 1, 0, 0).unwrap().normalize(), Ok(odd(0, 1, 0, 0)));
    assert_eq!(
        odd(1, 1, 1, 1).normalize(),
        Ok(OddVersor { xyz: UNIT / 2, x: UNIT / 2, y: UNIT / 2, z: UNIT / 2 })
    );
}

#[test]
fn normalize_divides_by_the_magnitude() {
    assert_eq!(
        odd(0, 1, 1, 0).normalize(),
        Ok(OddVersor { xyz: 0, x: 12439554047901, y: 12439554047901, z: 0 })
    );
    assert_eq!(
        odd(0, 3, 4, 0).normalize(),
        Ok(OddVersor { xyz: 0, x: 10555311626649, y: 14073748835532, z: 0 })
    );
    assert_eq!(
        EvenVersor::new(3, 4, 0, 0).unwrap().normalize(),
        Ok(EvenVersor { sca: 10555311626649, yz: 14073748835532, zx: 0, xy: 0 })
    );
    assert_eq!(
        even(65536, 256, 0, 0).normalize(),
        Ok(EvenVersor { sca: 17592051828223, yz: 68718952453, zx: 0, xy: 0 })
    );
}

#[test]
fn normalize_keeps_signs_and_zeros() {
    let u = odd(0, -3, 0, 4).normalize().unwrap();
    assert_eq!(u, OddVersor { xyz: 0, x: -10555311626649, y: 0, z: 14073748835532 });
}

#[test]
fn normalize_of_zero_is_degenerate() {
    assert_eq!(even(0, 0, 0, 0).normalize(), Err(VersorError::DegenerateVersor));
    assert_eq!(odd(0, 0, 0, 0).normalize(), Err(VersorError::DegenerateVersor));
}

#[test]
fn normalize_of_the_largest_and_smallest_elements() {
    let m = i64::MAX;
    let u = EvenVersor::new(m, m, m, m).unwrap().normalize().unwrap();
    assert_eq!(u, EvenVersor { sca: UNIT / 2, yz: UNIT / 2, zx: UNIT / 2, xy: UNIT / 2 });
    let v = OddVersor::new(0, 0, -1, 0).unwrap().normalize().unwrap();
    assert_eq!(v, odd(0, 0, -1, 0));
}

#[test]
fn sandwich_follows_the_products() {
    let a = even(1, 2, 3, 4);
    assert_eq!(
        a.sandwich_odd(odd(0, 1, 2, 3)),
        Ok(OddVersor { xyz: -8, x: 29320310074026, y: 39875621700662, z: 43394058909556 })
    );
    let quarter_turn = even(0, 0, 0, 1);
    assert_eq!(quarter_turn.sandwich_odd(odd(0, 1, 0, 0)), Ok(odd(0, -1, 0, 0)));
    assert_eq!(quarter_turn.sandwich_even(even(5, 1, 0, 0)), Ok(even(5, -1, 0, 0)));
    let axis = odd(0, 0, 0, 1);
    assert_eq!(axis.sandwich_odd(odd(0, 1, 2, 3)), Ok(odd(0, -1, -2, 3)));
    assert_eq!(axis.sandwich_even(even(5, 1, 2, 3)), Ok(even(5, -1, -2, 3)));
}

#[test]
fn sandwich_by_zero_is_degenerate() {
    let zero = even(0, 0, 0, 0);
    assert_eq!(zero.sandwich_odd(odd(0, 1, 2, 3)), Err(VersorError::DegenerateVersor));
    assert_eq!(zero.sandwich_even(even(1, 2, 3, 4)), Err(VersorError::DegenerateVersor));
    let none = odd(0, 0, 0, 0);
    assert_eq!(none.sandwich_odd(odd(0, 1, 2, 3)), Err(VersorError::DegenerateVersor));
    assert_eq!(none.sandwich_even(even(1, 2, 3, 4)), Err(VersorError::DegenerateVersor));
}

#[test]
fn sandwich_that_does_not_fit_is_an_overflow() {
    let a = even(1000, 0, 0, 0);
    assert_eq!(a.sandwich_odd(odd(0, 1000, 0, 0)), Err(VersorError::Overflow));
}

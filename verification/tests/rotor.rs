use ga3::error::VersorError;
use ga3::even::EvenVersor;
use ga3::exact::UNIT;
use ga3::odd::OddVersor;
use ga3::ratio::Ratio;
use ga3::rotor::{opposed_vectors, Rotor};
use ga3::versor::Versor;

const ROOT_HALF: f64 = 0.7071067811865476;

fn value(raw: i64) -> f64 {
    raw as f64 / UNIT as f64
}

/// A decimal number as a ratio over two to the power 53, which holds every
/// digit it has.
fn ratio(x: f64) -> Ratio {
    let den: i128 = 1 << 53;
    Ratio::new((x * den as f64).round() as i128, den).unwrap()
}

fn eighth_turn() -> Rotor {
    let half = std::f64::consts::FRAC_PI_8;
    let plane = EvenVersor::from_bivec(0, 0, 1);
    Rotor::from_bivector_angle(plane, ratio(half.cos()), ratio(half.sin())).unwrap()
}

#[test]
fn rotor_about_the_xy_plane_by_an_eighth_turn() {
    let half = std::f64::consts::FRAC_PI_8;
    assert_eq!(ratio(half.cos()).num, 8321567036706118);
    assert_eq!(ratio(half.sin()).num, 3446905926800562);
    let rotor = eighth_turn();
    assert_eq!(rotor, EvenVersor { sca: 16253060618566, yz: 0, zx: 0, xy: 6732238138282 });
    assert!((value(rotor.sca) - half.cos()).abs() < 1e-12);
    assert!((value(rotor.xy) - half.sin()).abs() < 1e-12);

    let m = rotor.mag2().unwrap();
    assert_eq!(m.num, 309485009821319695897807880);
    assert!((m.num as f64 / m.den as f64 - 1.0).abs() < 1e-12);

    let turned = rotor.sandwich_odd(OddVersor::from_vec(1, 0, 0)).unwrap();
    assert_eq!(turned, OddVersor { xyz: 0, x: 12439554047901, y: -12439554047901, z: 0 });
    // In the xy plane, an eighth of a turn from x, towards -y.
    assert!((value(turned.x) - ROOT_HALF).abs() < 1e-12);
    assert!((value(turned.y) + ROOT_HALF).abs() < 1e-12);
    let t = turned.mag2().unwrap();
    assert!((t.num as f64 / t.den as f64 - 1.0).abs() < 1e-12);
}

#[test]
fn conjugating_by_the_inverse_and_back_gives_the_vector() {
    let rotor = eighth_turn();
    let v = OddVersor::from_vec(1, 2, 3);
    let inner = rotor.inv().unwrap().sandwich_odd(v).unwrap();
    let outer = rotor.sandwich_odd(inner).unwrap();
    assert_eq!(
        outer,
        OddVersor { xyz: 0, x: 17592186044415, y: 35184372088826, z: 52776558133242 }
    );
    assert!(value(outer.xyz).abs() < 1e-12);
    assert!((value(outer.x) - 1.0).abs() < 1e-12);
    assert!((value(outer.y) - 2.0).abs() < 1e-12);
    assert!((value(outer.z) - 3.0).abs() < 1e-12);
}

#[test]
fn from_bivector_angle_is_a_unit_rotor_whatever_the_size_of_the_plane() {
    let r = Rotor::from_bivector_angle(
        EvenVersor::from_bivec(0, 1, 1),
        Ratio::new(0, 1).unwrap(),
        Ratio::new(1, 1).unwrap(),
    )
    .unwrap();
    assert_eq!(r, EvenVersor { sca: 0, yz: 0, zx: 12439554047901, xy: 12439554047901 });
    let m = r.mag2().unwrap();
    assert!((m.num as f64 / m.den as f64 - 1.0).abs() < 1e-12);
    let planes = [(3, 4, 0), (1000, -20, 3), (0, 0, 524287), (-1, 1, 1)];
    for (yz, zx, xy) in planes {
        let half: f64 = 0.3;
        let r = Rotor::from_bivector_angle(
            EvenVersor::from_bivec(yz, zx, xy),
            ratio(half.cos()),
            ratio(half.sin()),
        )
        .unwrap();
        let m = r.mag2().unwrap();
        assert!((m.num as f64 / m.den as f64 - 1.0).abs() < 1e-12);
    }
}

#[test]
fn from_bivector_angle_uses_only_the_bivector_part() {
    let with = EvenVersor::new(9 * UNIT, 0, 3 * UNIT, 4 * UNIT).unwrap();
    let without = EvenVersor::from_bivec(0, 3, 4);
    let (c, s) = (Ratio::new(3, 5).unwrap(), Ratio::new(4, 5).unwrap());
    assert_eq!(Rotor::from_bivector_angle(with, c, s), Rotor::from_bivector_angle(without, c, s));
}

#[test]
fn from_bivector_angle_without_a_plane_is_degenerate() {
    let scalar = EvenVersor::new(5 * UNIT, 0, 0, 0).unwrap();
    let r = Rotor::from_bivector_angle(
        scalar,
        Ratio::new(1, 1).unwrap(),
        Ratio::new(0, 1).unwrap(),
    );
    assert_eq!(r, Err(VersorError::DegenerateVersor));
}

#[test]
fn from_bivector_angle_that_does_not_fit_is_an_overflow() {
    let plane = EvenVersor::from_bivec(0, 0, 1);
    let r = Rotor::from_bivector_angle(
        plane,
        Ratio::new(1, 2).unwrap(),
        Ratio::new(1 << 20, 1).unwrap(),
    );
    assert_eq!(r, Err(VersorError::Overflow));
}

#[test]
fn from_vectors_between_two_axes() {
    let x = OddVersor::from_vec(1, 0, 0);
    let y = OddVersor::from_vec(0, 1, 0);
    let r = Rotor::from_vectors(x, y).unwrap();
    assert_eq!(r, EvenVersor { sca: 12439554047901, yz: 0, zx: 0, xy: 12439554047901 });
    assert!((value(r.sca) - ROOT_HALF).abs() < 1e-12);
    assert!((value(r.xy) - ROOT_HALF).abs() < 1e-12);
    let m = r.mag2().unwrap();
    assert!((m.num as f64 / m.den as f64 - 1.0).abs() < 1e-12);
    // Conjugation by it turns the second direction into the first.
    let back = r.sandwich_odd(y).unwrap();
    assert!((value(back.x) - 1.0).abs() < 1e-12);
    assert!(value(back.y).abs() < 1e-12 && back.z == 0 && back.xyz == 0);
}

#[test]
fn from_vectors_ignores_lengths_and_trivector_parts() {
    let a = OddVersor::new(7 * UNIT, UNIT, 2 * UNIT, 2 * UNIT).unwrap();
    let b = OddVersor::new(-3, 20 * UNIT, 10 * UNIT, 20 * UNIT).unwrap();
    let r = Rotor::from_vectors(a, b).unwrap();
    let plain = Rotor::from_vectors(OddVersor::from_vec(1, 2, 2), OddVersor::from_vec(2, 1, 2));
    assert_eq!(Ok(r), plain);
    let back = r.sandwich_odd(OddVersor::from_vec(2, 1, 2)).unwrap();
    assert!((value(back.x) - 1.0).abs() < 1e-11);
    assert!((value(back.y) - 2.0).abs() < 1e-11);
    assert!((value(back.z) - 2.0).abs() < 1e-11);
    assert!(value(back.xyz).abs() < 1e-11);
}

#[test]
fn from_vectors_of_equal_vectors_is_one() {
    let vectors = [(1, 1, 0), (1, 2, 3), (3, 4, 0), (1, 0, 0), (-7, 11, 500), (65536, 256, 1)];
    for (x, y, z) in vectors {
        let a = OddVersor::from_vec(x, y, z);
        let r = Rotor::from_vectors(a, a).unwrap();
        assert!((value(r.sca) - 1.0).abs() < 1e-12, "{:?}", r);
        assert!(value(r.yz).abs() < 1e-12 && value(r.zx).abs() < 1e-12, "{:?}", r);
        assert!(value(r.xy).abs() < 1e-12, "{:?}", r);
    }
    let a = OddVersor::from_vec(1, 1, 0);
    assert_eq!(
        Rotor::from_vectors(a, a),
        Ok(EvenVersor { sca: 17592186044413, yz: 0, zx: 0, xy: 0 })
    );
}

#[test]
fn from_vectors_is_a_unit_rotor_along_the_shorter_arc() {
    let vectors = [(1, 0, 0), (0, 1, 0), (1, 2, 3), (-2, 5, 1), (3, 4, 0), (-1, -1, 7)];
    for (ax, ay, az) in vectors {
        for (bx, by, bz) in vectors {
            let a = OddVersor::from_vec(ax, ay, az);
            let b = OddVersor::from_vec(bx, by, bz);
            let r = Rotor::from_vectors(a, b).unwrap();
            let m = r.mag2().unwrap();
            assert!((m.num as f64 / m.den as f64 - 1.0).abs() < 1e-12);
            assert!(r.sca >= 0);
        }
    }
}

#[test]
fn from_vectors_of_opposite_vectors_is_degenerate() {
    let a = OddVersor::from_vec(1, 2, 3);
    let b = OddVersor::from_vec(-1, -2, -3);
    assert_eq!(Rotor::from_vectors(a, b), Err(VersorError::DegenerateVersor));
    assert_eq!(Rotor::from_vectors(b, a), Err(VersorError::DegenerateVersor));
}

#[test]
fn from_vectors_of_opposite_vectors_of_unequal_length_is_degenerate() {
    let a = OddVersor::from_vec(1, 1, 0);
    let b = OddVersor::from_vec(-2, -2, 0);
    assert_eq!(Rotor::from_vectors(a, b), Err(VersorError::DegenerateVersor));
    let c = OddVersor::from_vec(3, -6, 9);
    let d = OddVersor::from_vec(-7, 14, -21);
    assert_eq!(Rotor::from_vectors(c, d), Err(VersorError::DegenerateVersor));
    assert!(opposed_vectors(c, d));
    assert!(!opposed_vectors(c, c));
    assert!(!opposed_vectors(a, OddVersor::from_vec(-2, -2, 1)));
}

#[test]
fn from_vectors_of_a_zero_vector_is_degenerate() {
    let zero = OddVersor::new(5, 0, 0, 0).unwrap();
    let x = OddVersor::from_vec(1, 0, 0);
    assert_eq!(Rotor::from_vectors(zero, x), Err(VersorError::DegenerateVersor));
    assert_eq!(Rotor::from_vectors(x, zero), Err(VersorError::DegenerateVersor));
}

#[test]
fn from_vectors_fits_for_the_largest_and_smallest_vectors() {
    let big = OddVersor::from_vec(524287, -524287, 524287);
    let other = OddVersor::from_vec(-524287, 524287, 524286);
    let tiny = OddVersor::new(0, 1, 0, 0).unwrap();
    let least = OddVersor::new(0, 0, -1, 1).unwrap();
    for a in [big, other, tiny, least] {
        for b in [big, other, tiny, least] {
            let r = Rotor::from_vectors(a, b);
            assert!(r != Err(VersorError::Overflow));
            if let Ok(e) = r {
                let m = e.mag2().unwrap();
                assert!((m.num as f64 / m.den as f64 - 1.0).abs() < 1e-11);
            }
        }
    }
}

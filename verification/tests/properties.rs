use ga3::even::EvenVersor;
use ga3::exact::UNIT;
use ga3::odd::OddVersor;
use ga3::ratio::Ratio;
use ga3::rotor::Rotor;
use ga3::versor::Versor;

fn value(raw: i64) -> f64 {
    raw as f64 / UNIT as f64
}

fn size(m: Ratio) -> f64 {
    m.num as f64 / m.den as f64
}

/// An element from components in thousandths.
fn even(sca: i64, yz: i64, zx: i64, xy: i64) -> EvenVersor {
    let part = |n: i64| ((n as i128) * (UNIT as i128) / 1000) as i64;
    EvenVersor::new(part(sca), part(yz), part(zx), part(xy)).unwrap()
}

/// An element from components in thousandths.
fn odd(xyz: i64, x: i64, y: i64, z: i64) -> OddVersor {
    let part = |n: i64| ((n as i128) * (UNIT as i128) / 1000) as i64;
    OddVersor::new(part(xyz), part(x), part(y), part(z)).unwrap()
}

fn evens() -> Vec<EvenVersor> {
    vec![
        even(1000, 2000, 3000, 4000),
        even(600, 0, 0, 800),
        even(-7250, 5125, 0, -2001),
        even(0, 0, 1, 0),
        even(65536000, 256000, 0, 0),
        even(12, -1, 8, 3),
    ]
}

fn odds() -> Vec<OddVersor> {
    vec![
        odd(0, 1000, 2000, 3000),
        odd(1000, 2000, 3000, 4000),
        odd(0, -400, 0, 300),
        odd(-2718, 0, 0, 0),
        odd(5, -6, 7, -8),
        odd(0, 100000, 1, 0),
    ]
}

fn close_even(p: EvenVersor, q: (f64, f64, f64, f64), tolerance: f64) -> bool {
    (value(p.sca) - q.0).abs() <= tolerance
        && (value(p.yz) - q.1).abs() <= tolerance
        && (value(p.zx) - q.2).abs() <= tolerance
        && (value(p.xy) - q.3).abs() <= tolerance
}

fn close_odd(p: OddVersor, q: OddVersor, tolerance: f64) -> bool {
    (value(p.xyz) - value(q.xyz)).abs() <= tolerance
        && (value(p.x) - value(q.x)).abs() <= tolerance
        && (value(p.y) - value(q.y)).abs() <= tolerance
        && (value(p.z) - value(q.z)).abs() <= tolerance
}

#[test]
fn normalize_gives_magnitude_one() {
    for e in evens() {
        let m = size(e.normalize().unwrap().mag2().unwrap());
        assert!((m - 1.0).abs() <= 1e-12, "{:?} has magnitude {}", e, m);
    }
    for o in odds() {
        let m = size(o.normalize().unwrap().mag2().unwrap());
        assert!((m - 1.0).abs() <= 1e-12, "{:?} has magnitude {}", o, m);
    }
}

#[test]
fn normalize_divides_each_component_by_the_magnitude() {
    for e in evens() {
        let u = e.normalize().unwrap();
        let k = 1.0 / size(e.mag2().unwrap()).sqrt();
        assert!(close_even(
            u,
            (k * value(e.sca), k * value(e.yz), k * value(e.zx), k * value(e.xy)),
            1e-12
        ));
        assert_eq!(u.sca.signum(), e.sca.signum());
        assert_eq!(u.zx == 0, e.zx == 0);
    }
}

#[test]
fn rev_twice_is_the_element() {
    for e in evens() {
        assert_eq!(e.rev().rev(), e);
    }
    for o in odds() {
        assert_eq!(o.rev().rev(), o);
    }
}

#[test]
fn rev_keeps_the_magnitude() {
    for e in evens() {
        assert_eq!(e.rev().mag2(), e.mag2());
    }
    for o in odds() {
        assert_eq!(o.rev().mag2(), o.mag2());
    }
}

#[test]
fn element_times_inverse_is_one() {
    for e in evens() {
        if size(e.mag2().unwrap()) < 1e-3 {
            continue;
        }
        let i = e.inv().unwrap();
        assert!(close_even(e.mul_even(i).unwrap(), (1.0, 0.0, 0.0, 0.0), 1e-9), "{:?}", e);
        assert!(close_even(i.mul_even(e).unwrap(), (1.0, 0.0, 0.0, 0.0), 1e-9), "{:?}", e);
    }
    for o in odds() {
        if size(o.mag2().unwrap()) < 1e-3 {
            continue;
        }
        let i = o.inv().unwrap();
        assert!(close_even(o.mul_odd(i).unwrap(), (1.0, 0.0, 0.0, 0.0), 1e-9), "{:?}", o);
        assert!(close_even(i.mul_odd(o).unwrap(), (1.0, 0.0, 0.0, 0.0), 1e-9), "{:?}", o);
    }
}

#[test]
fn reverse_times_element_is_the_magnitude() {
    for o in [odds()[0], odds()[1], odds()[2], odds()[4]] {
        let m = size(o.mag2().unwrap());
        assert!(close_even(o.rev().mul_odd(o).unwrap(), (m, 0.0, 0.0, 0.0), 1e-11));
    }
    for e in [evens()[0], evens()[1], evens()[2], evens()[5]] {
        let m = size(e.mag2().unwrap());
        assert!(close_even(e.rev().mul_even(e).unwrap(), (m, 0.0, 0.0, 0.0), 1e-11));
    }
}

#[test]
fn sandwich_by_a_unit_rotor_keeps_the_magnitude() {
    let rotors = [
        even(600, 0, 0, 800),
        even(1000, 2000, 3000, 4000).normalize().unwrap(),
        even(-7250, 5125, 0, -2001).normalize().unwrap(),
        even(0, 1000, 0, 0),
    ];
    for r in rotors {
        for v in odds() {
            let w = r.sandwich_odd(v).unwrap();
            let (before, after) = (size(v.mag2().unwrap()), size(w.mag2().unwrap()));
            assert!((after - before).abs() <= 1e-9 * (1.0 + before), "{:?} on {:?}", r, v);
        }
    }
}

#[test]
fn sandwich_by_a_unit_rotor_turns_a_vector() {
    // (3 + 4 e_xy) / 5 has magnitude one.
    let r = even(600, 0, 0, 800);
    let w = r.sandwich_odd(OddVersor::from_vec(1, 2, 3)).unwrap();
    assert!((value(w.x) - 1.64).abs() < 1e-12);
    assert!((value(w.y) + 1.52).abs() < 1e-12);
    assert!((value(w.z) - 3.0).abs() < 1e-12);
    assert!(value(w.xyz).abs() < 1e-12);
}

#[test]
fn sandwich_by_the_inverse_and_back_is_the_element() {
    let rotors = [
        even(600, 0, 0, 800),
        even(1000, -1000, 2000, 0),
        even(1000, 2000, 3000, 4000).normalize().unwrap(),
    ];
    for r in rotors {
        for v in [odds()[0], odds()[1], odds()[2], odds()[4]] {
            let inner = r.inv().unwrap().sandwich_odd(v).unwrap();
            assert!(close_odd(r.sandwich_odd(inner).unwrap(), v, 1e-9), "{:?} on {:?}", r, v);
        }
    }
}

#[test]
fn products_are_associative_within_rounding() {
    let a = even(1000, 2000, 3000, 4000);
    let b = even(600, 0, 0, 800);
    let w = odd(0, 1000, 2000, 3000);
    let left = a.mul_even(b).unwrap().mul_odd(w).unwrap();
    let right = a.mul_odd(b.mul_odd(w).unwrap()).unwrap();
    assert!(close_odd(left, right, 1e-11));
}

#[test]
fn products_of_whole_numbers_are_exact() {
    let a = EvenVersor::from_bivec(2, -3, 5);
    let v = OddVersor::from_vec(7, 11, -13);
    let p = a.mul_odd(v).unwrap();
    assert_eq!(p.xyz % UNIT, 0);
    assert_eq!(p, OddVersor::new(-84 * UNIT, 16 * UNIT, -61 * UNIT, -43 * UNIT).unwrap());
}

#[test]
fn normalize_is_within_sixteen_units_of_magnitude_one() {
    let u = UNIT as i128;
    for o in odds() {
        let n = o.normalize().unwrap();
        let norm = n.mag2().unwrap().num;
        assert!((norm - u * u).abs() <= 16 * u, "{:?}", o);
        assert!(n.xyz.abs() <= UNIT && n.x.abs() <= UNIT && n.y.abs() <= UNIT && n.z.abs() <= UNIT);
    }
    for e in evens() {
        let norm = e.normalize().unwrap().mag2().unwrap().num;
        assert!((norm - u * u).abs() <= 16 * u, "{:?}", e);
    }
}

#[test]
fn product_is_within_one_unit_of_the_exact_product() {
    let u = UNIT as i128;
    for a in evens() {
        for b in evens() {
            if let Ok(p) = a.mul_even(b) {
                let exact = (a.sca as i128) * (b.sca as i128)
                    - (a.yz as i128) * (b.yz as i128)
                    - (a.zx as i128) * (b.zx as i128)
                    - (a.xy as i128) * (b.xy as i128);
                let lost = exact - (p.sca as i128) * u;
                assert!(lost.abs() < u);
                assert!(lost == 0 || (lost > 0) == (exact > 0));
            }
        }
    }
}

#[test]
fn element_times_stored_inverse_is_one_within_the_stated_bound() {
    let u = UNIT as i128;
    for e in evens() {
        if let Ok(i) = e.inv() {
            if let Ok(p) = e.mul_even(i) {
                let spread = (e.sca.abs() + e.yz.abs() + e.zx.abs() + e.xy.abs()) as i128;
                assert!(((p.sca - UNIT).abs() as i128) * u <= u + spread, "{:?}", e);
                assert!((p.yz.abs() as i128) * u <= u + spread, "{:?}", e);
                assert!((p.zx.abs() as i128) * u <= u + spread, "{:?}", e);
                assert!((p.xy.abs() as i128) * u <= u + spread, "{:?}", e);
            }
        }
    }
    for o in odds() {
        if let Ok(i) = o.inv() {
            if let Ok(p) = o.mul_odd(i) {
                let spread = (o.xyz.abs() + o.x.abs() + o.y.abs() + o.z.abs()) as i128;
                assert!(((p.sca - UNIT).abs() as i128) * u <= u + spread, "{:?}", o);
                assert!((p.yz.abs() as i128) * u <= u + spread, "{:?}", o);
            }
        }
    }
}

#[test]
fn sandwich_never_raises_the_magnitude() {
    for r in evens() {
        for v in odds() {
            if let Ok(w) = r.sandwich_odd(v) {
                assert!(w.mag2().unwrap().num <= v.mag2().unwrap().num, "{:?} on {:?}", r, v);
            }
        }
        for v in evens() {
            if let Ok(w) = r.sandwich_even(v) {
                assert!(w.mag2().unwrap().num <= v.mag2().unwrap().num, "{:?} on {:?}", r, v);
            }
        }
    }
    for r in odds() {
        for v in odds() {
            if let Ok(w) = r.sandwich_odd(v) {
                assert!(w.mag2().unwrap().num <= v.mag2().unwrap().num, "{:?} on {:?}", r, v);
            }
        }
    }
}

#[test]
fn rotor_from_a_vector_to_itself_is_one_within_sixty_four_units() {
    for (x, y, z) in [(1, 1, 0), (1, 2, 3), (-5, 0, 2), (524287, 1, 0), (0, 0, 1)] {
        let a = OddVersor::from_vec(x, y, z);
        let r = Rotor::from_vectors(a, a).unwrap();
        assert!((r.sca - UNIT).abs() <= 64, "{:?}", r);
        assert!(r.yz.abs() <= 64 && r.zx.abs() <= 64 && r.xy.abs() <= 64, "{:?}", r);
    }
}

#[test]
fn rotors_have_magnitude_one_within_the_stated_bound() {
    let u = UNIT as i128;
    let bound = 4 * u * u / (1i128 << 39);
    let vectors = [(1, 0, 0), (0, 1, 0), (1, 2, 3), (-2, 5, 1), (3, 4, 0), (500000, 3, 1)];
    for (ax, ay, az) in vectors {
        for (bx, by, bz) in vectors {
            let a = OddVersor::from_vec(ax, ay, az);
            let b = OddVersor::from_vec(bx, by, bz);
            let r = Rotor::from_vectors(a, b).unwrap();
            let norm = r.mag2().unwrap().num;
            assert!((norm - u * u).abs() <= bound);
        }
    }
    for degrees in [0.0f64, 1.0, 45.0, 90.0, 123.456, 180.0, 359.0, -77.0] {
        let half = degrees.to_radians() / 2.0;
        let den: i128 = 1 << 53;
        let c = Ratio::new((half.cos() * den as f64).round() as i128, den).unwrap();
        let s = Ratio::new((half.sin() * den as f64).round() as i128, den).unwrap();
        let (cs, ss) = (
            EvenVersor::from_sca(c).unwrap().sca as i128,
            EvenVersor::from_sca(s).unwrap().sca as i128,
        );
        assert!((cs * cs + ss * ss - u * u).abs() <= 16 * u);
        let r = Rotor::from_bivector_angle(EvenVersor::from_bivec(1, -2, 300), c, s).unwrap();
        let norm = r.mag2().unwrap().num;
        assert!((norm - u * u).abs() <= bound, "{} degrees", degrees);
    }
}

#[test]
fn rotation_lowers_the_squared_length_by_at_most_thirty_two_units() {
    let u = UNIT as i128;
    let rotors = [
        even(600, 0, 0, 800),
        even(1000, 2000, 3000, 4000).normalize().unwrap(),
        even(-7250, 5125, 0, -2001).normalize().unwrap(),
        even(0, 1000, 0, 0),
        even(1, 0, -1, 1).normalize().unwrap(),
    ];
    let vectors =
        [odd(0, 1000, 0, 0), odd(0, 600, 0, -800), odd(0, 1, 2, 3), odd(500, 500, 500, 500)];
    for r in rotors {
        assert!((r.mag2().unwrap().num - u * u).abs() <= 16 * u);
        for v in vectors {
            let w = r.sandwich_odd(v).unwrap();
            let fall = v.mag2().unwrap().num - w.mag2().unwrap().num;
            assert!(0 <= fall && fall <= 32 * u, "{:?} on {:?} falls by {}", r, v, fall);
        }
    }
}

use ga3::even::EvenVersor;
use ga3::exact::UNIT;
use ga3::odd::OddVersor;
use ga3::text::{component_string, natural_string};

#[test]
fn natural_string_writes_decimal_digits() {
    assert_eq!(natural_string(0), "0");
    assert_eq!(natural_string(7), "7");
    assert_eq!(natural_string(10), "10");
    assert_eq!(natural_string(1234567890), "1234567890");
    assert_eq!(natural_string(u64::MAX), "18446744073709551615");
}

#[test]
fn component_string_writes_whole_numbers_without_a_point() {
    assert_eq!(component_string(0), "0");
    assert_eq!(component_string(UNIT), "1");
    assert_eq!(component_string(-2 * UNIT), "-2");
    assert_eq!(component_string(524287 * UNIT), "524287");
}

#[test]
fn component_string_writes_fractions_without_zeros_at_the_end() {
    assert_eq!(component_string(3 * UNIT / 2), "1.5");
    assert_eq!(component_string(UNIT / 4), "0.25");
    assert_eq!(component_string(-5 * UNIT / 2), "-2.5");
    assert_eq!(component_string(UNIT / 1024), "0.0009765625");
}

#[test]
fn component_string_rounds_to_thirteen_places() {
    assert_eq!(component_string(UNIT / 3), "0.3333333333333");
    assert_eq!(component_string(-(UNIT / 10)), "-0.1");
    assert_eq!(component_string(UNIT / 10), "0.1");
    assert_eq!(component_string(12439554047901), "0.7071067811865");
    assert_eq!(component_string(-12439554047901), "-0.7071067811865");
    assert_eq!(component_string(1), "0.0000000000001");
    assert_eq!(component_string(-1), "-0.0000000000001");
    assert_eq!(component_string(i64::MAX), "524287.9999999999999");
}

#[test]
fn even_element_as_text() {
    let e = EvenVersor::new(3 * UNIT / 2, 0, -2 * UNIT, UNIT / 4).unwrap();
    assert_eq!(e.to_string(), "sca: 1.5, yz: 0, zx: -2, xy: 0.25");
}

#[test]
fn odd_element_as_text() {
    let o = OddVersor::new(0, UNIT, 5 * UNIT / 2, -3 * UNIT).unwrap();
    assert_eq!(o.to_string(), "xyz: 0, x: 1, y: 2.5, z: -3");
}

#[test]
fn text_agrees_with_the_standard_rendering_of_short_decimals() {
    for x in [0.0f64, 1.0, -1.0, 0.5, -0.75, 2.125, 100.0, -3.0625, 0.1, 12.34, -0.001] {
        let raw = (x * UNIT as f64).round() as i64;
        assert_eq!(component_string(raw), format!("{}", x));
    }
}

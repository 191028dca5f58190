use medial_axis_3d::bounds::{bounding_box, largest};
use medial_axis_3d::number::{
    almost_equal, is_within_tolerance, pattern_is_nan, pattern_le, pattern_lt, split, EPSILON,
    INFINITY, SIGN_BIT,
};
use medial_axis_3d::point::Point;

fn pt(x: f64, y: f64, z: f64) -> Point {
    Point::new(x.to_bits(), y.to_bits(), z.to_bits())
}

fn samples() -> Vec<f64> {
    let mut values = vec![
        0.0,
        5e-324,
        1e-310,
        f64::MIN_POSITIVE,
        f64::EPSILON,
        0.1,
        0.5,
        1.0,
        1.0000000000000002,
        2.0,
        3.5,
        1e30,
        f64::MAX,
        f64::INFINITY,
    ];
    let negated: Vec<f64> = values.iter().map(|v| -v).collect();
    values.extend(negated);
    values.push(f64::NAN);
    values.push(-f64::NAN);
    values.push(f64::from_bits(0x7FF0_0000_0000_0001));
    values.push(f64::from_bits(0xFFFF_FFFF_FFFF_FFFF));
    values
}

fn difference(a: u64, b: u64) -> u64 {
    (f64::from_bits(a) - f64::from_bits(b)).to_bits()
}

fn close(a: f64, b: f64) -> bool {
    almost_equal(a.to_bits(), b.to_bits(), &difference)
}

#[test]
fn constants_are_the_patterns_of_the_numbers() {
    assert_eq!(EPSILON, f64::EPSILON.to_bits());
    assert_eq!(INFINITY, f64::INFINITY.to_bits());
    assert_eq!(SIGN_BIT, (-0.0f64).to_bits());
}

#[test]
fn tolerance_is_an_absolute_bound_on_the_difference() {
    for v in samples() {
        assert_eq!(
            is_within_tolerance(v.to_bits()),
            v.abs() <= f64::EPSILON,
            "{v:?}"
        );
    }
    assert!(is_within_tolerance(f64::EPSILON.to_bits()));
    assert!(is_within_tolerance((-f64::EPSILON).to_bits()));
    assert!(!is_within_tolerance((f64::EPSILON * 1.0000000000000002).to_bits()));
    assert!(!is_within_tolerance(f64::NAN.to_bits()));
}

#[test]
fn almost_equal_compares_within_the_tolerance() {
    assert!(close(1.0, 1.0));
    assert!(close(1.0, 1.0 + f64::EPSILON));
    assert!(close(1.0 + f64::EPSILON, 1.0));
    assert!(!close(1.0, 1.0 + 2.0 * f64::EPSILON));
    assert!(close(0.0, -0.0));
    assert!(close(0.0, 1e-17));
    assert!(close(1e-16, -1e-16));
    assert!(!close(2e-16, -2e-16));
    assert!(!close(1.0, 2.0));
    assert!(!close(f64::NAN, f64::NAN));
    assert!(!close(f64::INFINITY, f64::INFINITY));
    assert!(!close(1.0, f64::NAN));
}

#[test]
fn points_within_the_tolerance_are_almost_equal() {
    let p = pt(1.0, 2.0, 0.5);
    assert!(p.almost_equal(&p, &difference));
    assert!(p.almost_equal(&pt(1.0 + f64::EPSILON, 2.0, 0.5 - 1e-16), &difference));
    assert!(pt(0.0, 0.0, 0.0).almost_equal(&pt(-0.0, 1e-17, -1e-17), &difference));
}

#[test]
fn points_apart_in_one_coordinate_are_not_almost_equal() {
    let p = pt(1.0, 2.0, 0.5);
    assert!(!p.almost_equal(&pt(1.0 + 2.0 * f64::EPSILON, 2.0, 0.5), &difference));
    assert!(!p.almost_equal(&pt(1.0, 2.0 + 1e-15, 0.5), &difference));
    assert!(!p.almost_equal(&pt(1.0, 2.0, 0.5 + 1e-15), &difference));
    assert!(!p.almost_equal(&pt(1.0, 2.0, f64::NAN), &difference));
}

#[test]
fn later_coordinates_are_not_looked_at_after_a_difference() {
    let asked = std::cell::Cell::new(0usize);
    let counting = |a: u64, b: u64| -> u64 {
        asked.set(asked.get() + 1);
        difference(a, b)
    };
    assert!(!pt(1.0, 2.0, 3.0).almost_equal(&pt(9.0, 2.0, 3.0), &counting));
    assert_eq!(asked.get(), 1);
    assert!(!pt(1.0, 2.0, 3.0).almost_equal(&pt(1.0, 9.0, 3.0), &counting));
    assert_eq!(asked.get(), 3);
    assert!(pt(1.0, 2.0, 3.0).almost_equal(&pt(1.0, 2.0, 3.0), &counting));
    assert_eq!(asked.get(), 6);
}

#[test]
fn split_gives_magnitude_and_sign() {
    assert_eq!(split(1.5f64.to_bits()), (1.5f64.to_bits(), false));
    assert_eq!(split((-1.5f64).to_bits()), (1.5f64.to_bits(), true));
    assert_eq!(split(0), (0, false));
    assert_eq!(split(0x8000_0000_0000_0000), (0, true));
    assert_eq!(split(0xFFFF_FFFF_FFFF_FFFF), (0x7FFF_FFFF_FFFF_FFFF, true));
}

#[test]
fn nan_patterns_are_recognised() {
    for v in samples() {
        assert_eq!(pattern_is_nan(v.to_bits()), v.is_nan(), "{v:?}");
    }
}

#[test]
fn order_of_patterns_is_the_order_of_numbers() {
    for a in samples() {
        for b in samples() {
            assert_eq!(pattern_le(a.to_bits(), b.to_bits()), a <= b, "{a:?} <= {b:?}");
            assert_eq!(pattern_lt(a.to_bits(), b.to_bits()), a < b, "{a:?} < {b:?}");
        }
    }
}

#[test]
fn zeros_of_both_signs_are_equal_in_order() {
    let (plus, minus) = (0.0f64.to_bits(), (-0.0f64).to_bits());
    assert!(pattern_le(plus, minus));
    assert!(pattern_le(minus, plus));
    assert!(!pattern_lt(minus, plus));
    assert!(!pattern_lt(plus, minus));
}

#[test]
fn bounding_box_of_one_point_is_the_point() {
    let p = pt(1.0, -2.0, 3.0);
    assert_eq!(bounding_box(&[p]), (p, p));
}

#[test]
fn bounding_box_takes_each_axis_by_itself() {
    let points = [
        pt(1.0, 5.0, -3.0),
        pt(-2.0, 7.0, 0.0),
        pt(4.0, -1.0, -3.5),
        pt(0.0, 0.0, 9.0),
    ];
    assert_eq!(bounding_box(&points), (pt(-2.0, -1.0, -3.5), pt(4.0, 7.0, 9.0)));
}

#[test]
fn bounding_box_keeps_the_first_of_equal_numbers() {
    let points = [pt(0.0, -0.0, 1.0), pt(-0.0, 0.0, 1.0)];
    assert_eq!(bounding_box(&points), (points[0], points[0]));
}

#[test]
fn bounding_box_passes_over_what_is_not_a_number() {
    let points = [pt(1.0, 1.0, 1.0), pt(f64::NAN, 2.0, 0.5), pt(3.0, f64::NAN, f64::NAN)];
    assert_eq!(bounding_box(&points), (pt(1.0, 1.0, 0.5), pt(3.0, 2.0, 1.0)));
    let points = [pt(f64::NAN, 1.0, 1.0), pt(2.0, 2.0, 0.5)];
    let (lo, hi) = bounding_box(&points);
    assert!(f64::from_bits(lo.x).is_nan());
    assert!(f64::from_bits(hi.x).is_nan());
    assert_eq!((lo.y, lo.z), (1.0f64.to_bits(), 0.5f64.to_bits()));
    assert_eq!((hi.y, hi.z), (2.0f64.to_bits(), 1.0f64.to_bits()));
}

#[test]
fn largest_picks_the_greatest() {
    let bits = |v: &[f64]| -> Vec<u64> { v.iter().map(|x| x.to_bits()).collect() };
    assert_eq!(largest(&bits(&[1.0, 3.0, 2.0])), 3.0f64.to_bits());
    assert_eq!(largest(&bits(&[5.0, 3.0, 2.0])), 5.0f64.to_bits());
    assert_eq!(largest(&bits(&[-5.0, -3.0, -7.0])), (-3.0f64).to_bits());
    assert_eq!(largest(&bits(&[0.25])), 0.25f64.to_bits());
    assert_eq!(largest(&bits(&[1.0, f64::INFINITY, 2.0])), f64::INFINITY.to_bits());
}

#[test]
fn largest_picks_the_last_of_equals() {
    let values = [0.0f64.to_bits(), (-0.0f64).to_bits()];
    assert_eq!(largest(&values), (-0.0f64).to_bits());
    let values = [(-0.0f64).to_bits(), 0.0f64.to_bits(), (-1.0f64).to_bits()];
    assert_eq!(largest(&values), 0.0f64.to_bits());
}

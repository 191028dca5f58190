use medial_axis_3d::edge::Edge;
use medial_axis_3d::face::{point_precedes, Face};
use medial_axis_3d::number::{pattern_is_finite, pattern_is_normal};
use medial_axis_3d::point::Point;
use medial_axis_3d::tetrahedron::Tetrahedron;

fn pt(x: f64, y: f64, z: f64) -> Point {
    Point::new(x.to_bits(), y.to_bits(), z.to_bits())
}

fn difference(a: u64, b: u64) -> u64 {
    (f64::from_bits(a) - f64::from_bits(b)).to_bits()
}

#[test]
fn point_keeps_its_patterns() {
    let p = pt(1.5, -2.0, 0.25);
    assert_eq!(p.x, 0x3FF8_0000_0000_0000);
    assert_eq!(p.y, 0xC000_0000_0000_0000);
    assert_eq!(p.z, 0x3FD0_0000_0000_0000);
    assert_eq!(f64::from_bits(p.x), 1.5);
}

#[test]
fn points_are_equal_when_patterns_agree() {
    assert_eq!(pt(1.0, 2.0, 3.0), pt(1.0, 2.0, 3.0));
    assert_ne!(pt(1.0, 2.0, 3.0), pt(1.0, 2.0, 3.5));
    assert_ne!(pt(0.0, 0.0, 0.0), pt(-0.0, 0.0, 0.0));
}

#[test]
fn normal_patterns_match_the_number_classes() {
    let samples = [
        0.0,
        -0.0,
        1.0,
        -1.0,
        0.5,
        1e300,
        -1e-300,
        f64::MIN_POSITIVE,
        f64::MIN_POSITIVE / 2.0,
        5e-324,
        f64::MAX,
        f64::MIN,
        f64::EPSILON,
        f64::INFINITY,
        f64::NEG_INFINITY,
        f64::NAN,
    ];
    for v in samples {
        assert_eq!(pattern_is_normal(v.to_bits()), v.is_normal(), "value {v:?}");
    }
}

#[test]
fn normal_pattern_edges() {
    assert!(!pattern_is_normal(0x0000_0000_0000_0000));
    assert!(!pattern_is_normal(0x000F_FFFF_FFFF_FFFF));
    assert!(pattern_is_normal(0x0010_0000_0000_0000));
    assert!(pattern_is_normal(0x7FEF_FFFF_FFFF_FFFF));
    assert!(!pattern_is_normal(0x7FF0_0000_0000_0000));
    assert!(!pattern_is_normal(0x7FF8_0000_0000_0000));
    assert!(!pattern_is_normal(0x8000_0000_0000_0000));
    assert!(pattern_is_normal(0x8010_0000_0000_0000));
    assert!(!pattern_is_normal(0xFFF0_0000_0000_0000));
    assert!(!pattern_is_normal(0xFFFF_FFFF_FFFF_FFFF));
}

#[test]
fn finite_patterns_match_the_number_classes() {
    let samples = [
        0.0,
        -0.0,
        1.0,
        -1.0,
        1e300,
        f64::MIN_POSITIVE,
        5e-324,
        -5e-324,
        f64::MAX,
        f64::MIN,
        f64::INFINITY,
        f64::NEG_INFINITY,
        f64::NAN,
        -f64::NAN,
    ];
    for v in samples {
        assert_eq!(pattern_is_finite(v.to_bits()), v.is_finite(), "value {v:?}");
    }
    assert!(pattern_is_finite(0x7FEF_FFFF_FFFF_FFFF));
    assert!(!pattern_is_finite(0x7FF0_0000_0000_0000));
    assert!(!pattern_is_finite(0x7FF0_0000_0000_0001));
    assert!(pattern_is_finite(0x8000_0000_0000_0000));
    assert!(!pattern_is_finite(0xFFF0_0000_0000_0000));
}

#[test]
fn point_is_finite_needs_all_three() {
    assert!(pt(1.0, 2.0, 3.0).is_finite());
    assert!(pt(0.0, -0.0, 1e-310).is_finite());
    assert!(!pt(f64::INFINITY, 2.0, 3.0).is_finite());
    assert!(!pt(1.0, f64::NAN, 3.0).is_finite());
    assert!(!pt(1.0, 2.0, f64::NEG_INFINITY).is_finite());
}

#[test]
fn point_is_normal_needs_all_three() {
    assert!(pt(1.0, 2.0, 3.0).is_normal());
    assert!(!pt(0.0, 2.0, 3.0).is_normal());
    assert!(!pt(1.0, f64::NAN, 3.0).is_normal());
    assert!(!pt(1.0, 2.0, f64::INFINITY).is_normal());
    assert!(!pt(1.0, 2.0, 1e-310).is_normal());
}

#[test]
fn edge_keeps_direction() {
    let a = pt(0.0, 0.0, 0.0);
    let b = pt(1.0, 1.0, 1.0);
    let e = Edge::new(a, b);
    assert_eq!(e.p1, a);
    assert_eq!(e.p2, b);
    assert_ne!(Edge::new(a, b), Edge::new(b, a));
}

#[test]
fn face_equality_ignores_corner_order() {
    let p = pt(0.0, 0.0, 0.0);
    let q = pt(1.0, 0.0, 0.0);
    let r = pt(0.0, 1.0, 0.0);
    let base = Face::new(p, q, r);
    assert!(base == Face::new(p, q, r));
    assert!(base == Face::new(p, r, q));
    assert!(base == Face::new(q, p, r));
    assert!(base == Face::new(q, r, p));
    assert!(base == Face::new(r, p, q));
    assert!(base == Face::new(r, q, p));
    assert!(base != Face::new(p, q, pt(0.0, 0.0, 1.0)));
    assert!(base != Face::new(p, q, q));
}

#[test]
fn face_with_repeated_corner() {
    let p = pt(0.0, 0.0, 0.0);
    let q = pt(1.0, 0.0, 0.0);
    assert!(Face::new(p, p, q) == Face::new(p, q, p));
    assert!(Face::new(p, p, q) == Face::new(q, p, p));
    assert!(Face::new(p, p, q) != Face::new(p, q, q));
}

#[test]
fn canonical_form_is_shared_by_all_orders() {
    let p = pt(3.0, 1.0, 2.0);
    let q = pt(1.0, 5.0, 0.5);
    let r = pt(1.0, 2.0, 9.0);
    let expected = Face::new(r, q, p).canonical();
    assert_eq!(expected.p1, r);
    assert_eq!(expected.p2, q);
    assert_eq!(expected.p3, p);
    for f in [
        Face::new(p, q, r),
        Face::new(p, r, q),
        Face::new(q, p, r),
        Face::new(q, r, p),
        Face::new(r, p, q),
        Face::new(r, q, p),
    ] {
        let c = f.canonical();
        assert_eq!((c.p1, c.p2, c.p3), (expected.p1, expected.p2, expected.p3));
        assert!(c == f);
    }
}

#[test]
fn canonical_order_is_by_pattern_then_axis() {
    let a = Point::new(1, 9, 9);
    let b = Point::new(2, 0, 0);
    let c = Point::new(2, 0, 1);
    assert!(point_precedes(&a, &b));
    assert!(point_precedes(&b, &c));
    assert!(point_precedes(&a, &a));
    assert!(!point_precedes(&c, &b));
    assert!(!point_precedes(&b, &a));
    let f = Face::new(c, a, b).canonical();
    assert_eq!((f.p1, f.p2, f.p3), (a, b, c));
}

#[test]
fn tetrahedron_keeps_what_it_is_given() {
    let a = pt(0.0, 0.0, 0.0);
    let b = pt(1.0, 0.0, 0.0);
    let c = pt(0.0, 1.0, 0.0);
    let d = pt(0.0, 0.0, 1.0);
    let centre = pt(0.5, 0.5, 0.5);
    let t = Tetrahedron::new(a, b, c, d, centre, 0.75f64.to_bits());
    assert_eq!((t.p1, t.p2, t.p3, t.p4), (a, b, c, d));
    assert_eq!(t.circumcenter, centre);
    assert_eq!(f64::from_bits(t.circumradius), 0.75);
}

#[test]
fn tetrahedron_has_point_checks_the_four_corners() {
    let a = pt(0.0, 0.0, 0.0);
    let b = pt(1.0, 0.0, 0.0);
    let c = pt(0.0, 1.0, 0.0);
    let d = pt(0.0, 0.0, 1.0);
    let centre = pt(0.5, 0.5, 0.5);
    let t = Tetrahedron::new(a, b, c, d, centre, 0.75f64.to_bits());
    assert!(t.has_point(&a, &difference));
    assert!(t.has_point(&b, &difference));
    assert!(t.has_point(&c, &difference));
    assert!(t.has_point(&d, &difference));
    assert!(!t.has_point(&centre, &difference));
    assert!(!t.has_point(&pt(1.0, 1.0, 1.0), &difference));
}

#[test]
fn tetrahedron_has_point_compares_within_the_tolerance() {
    let a = pt(0.0, 0.0, 0.0);
    let b = pt(1.0, 0.0, 0.0);
    let c = pt(0.0, 1.0, 0.0);
    let d = pt(0.0, 0.0, 1.0);
    let t = Tetrahedron::new(a, b, c, d, pt(0.5, 0.5, 0.5), 0.75f64.to_bits());
    assert!(t.has_point(&pt(-0.0, 0.0, 0.0), &difference));
    assert!(t.has_point(&pt(1e-17, -1e-17, 0.0), &difference));
    assert!(t.has_point(&pt(1.0 + f64::EPSILON, 0.0, 0.0), &difference));
    assert!(t.has_point(&pt(0.0, 1e-16, 1.0 - 1e-16), &difference));
    assert!(!t.has_point(&pt(0.0, 0.0, 1e-15), &difference));
    assert!(!t.has_point(&pt(1.0 + 4.0 * f64::EPSILON, 0.0, 0.0), &difference));
    assert!(!t.has_point(&pt(f64::NAN, 0.0, 0.0), &difference));
}

#[test]
fn tetrahedron_has_point_stops_at_the_first_corner_found() {
    let a = pt(0.0, 0.0, 0.0);
    let b = pt(1.0, 0.0, 0.0);
    let c = pt(0.0, 1.0, 0.0);
    let d = pt(0.0, 0.0, 1.0);
    let t = Tetrahedron::new(a, b, c, d, pt(0.5, 0.5, 0.5), 0.75f64.to_bits());
    let asked = std::cell::RefCell::new(Vec::new());
    let recording = |x: u64, y: u64| -> u64 {
        asked.borrow_mut().push((x, y));
        difference(x, y)
    };
    assert!(t.has_point(&b, &recording));
    assert_eq!(
        asked.into_inner(),
        vec![(a.x, b.x), (b.x, b.x), (b.y, b.y), (b.z, b.z)]
    );
}

#[test]
fn tetrahedron_faces_leave_out_one_corner_each() {
    let a = pt(0.0, 0.0, 0.0);
    let b = pt(1.0, 0.0, 0.0);
    let c = pt(0.0, 1.0, 0.0);
    let d = pt(0.0, 0.0, 1.0);
    let t = Tetrahedron::new(a, b, c, d, pt(0.5, 0.5, 0.5), 0.75f64.to_bits());
    let fs = t.faces();
    assert_eq!((fs[0].p1, fs[0].p2, fs[0].p3), (a, b, c));
    assert_eq!((fs[1].p1, fs[1].p2, fs[1].p3), (a, b, d));
    assert_eq!((fs[2].p1, fs[2].p2, fs[2].p3), (a, c, d));
    assert_eq!((fs[3].p1, fs[3].p2, fs[3].p3), (b, c, d));
}

#[test]
fn faces_are_almost_equal_in_any_order_within_the_tolerance() {
    let p = pt(0.0, 0.0, 0.0);
    let q = pt(1.0, 0.0, 0.0);
    let r = pt(0.0, 1.0, 0.0);
    let base = Face::new(p, q, r);
    for other in [
        Face::new(p, q, r),
        Face::new(p, r, q),
        Face::new(q, p, r),
        Face::new(q, r, p),
        Face::new(r, p, q),
        Face::new(r, q, p),
    ] {
        assert!(base.almost_equal(&other, &difference));
    }
    let near = Face::new(pt(1.0 + f64::EPSILON, 1e-17, 0.0), pt(-0.0, 1.0, -1e-17), pt(0.0, 0.0, 0.0));
    assert!(base.almost_equal(&near, &difference));
    assert!(near.almost_equal(&base, &difference));
    assert!(base != near);
    assert!(!base.almost_equal(&Face::new(p, q, pt(0.0, 1.0, 1e-15)), &difference));
    assert!(!base.almost_equal(&Face::new(p, q, q), &difference));
    assert!(!base.almost_equal(&Face::new(p, q, pt(f64::NAN, 1.0, 0.0)), &difference));
}

#[test]
fn face_matches_compares_corner_by_corner() {
    let p = pt(0.0, 0.0, 0.0);
    let q = pt(1.0, 0.0, 0.0);
    let r = pt(0.0, 1.0, 0.0);
    let f = Face::new(p, q, r);
    assert!(f.matches(&p, &q, &r, &difference));
    assert!(f.matches(&pt(-0.0, 0.0, 0.0), &q, &pt(1e-17, 1.0, 0.0), &difference));
    assert!(!f.matches(&q, &p, &r, &difference));
    assert!(!f.matches(&p, &r, &q, &difference));
    let asked = std::cell::Cell::new(0usize);
    let counting = |a: u64, b: u64| -> u64 {
        asked.set(asked.get() + 1);
        difference(a, b)
    };
    assert!(!f.matches(&q, &q, &r, &counting));
    assert_eq!(asked.get(), 1);
}

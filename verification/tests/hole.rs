use medial_axis_3d::face::Face;
use medial_axis_3d::hole::{find_face, toggle_face};
use medial_axis_3d::point::Point;

fn pt(x: f64, y: f64, z: f64) -> Point {
    Point::new(x.to_bits(), y.to_bits(), z.to_bits())
}

fn corners(f: &Face) -> (Point, Point, Point) {
    (f.p1, f.p2, f.p3)
}

#[test]
fn find_face_returns_first_position_or_length() {
    let a = pt(0.0, 0.0, 0.0);
    let b = pt(1.0, 0.0, 0.0);
    let c = pt(0.0, 1.0, 0.0);
    let d = pt(0.0, 0.0, 1.0);
    let faces = vec![Face::new(a, b, c), Face::new(a, b, d), Face::new(c, b, a)];
    assert_eq!(find_face(&faces, &Face::new(b, c, a)), 0);
    assert_eq!(find_face(&faces, &Face::new(d, a, b)), 1);
    assert_eq!(find_face(&faces, &Face::new(a, c, d)), 3);
    assert_eq!(find_face(&Vec::new(), &Face::new(a, c, d)), 0);
}

#[test]
fn toggle_adds_an_absent_face() {
    let a = pt(0.0, 0.0, 0.0);
    let b = pt(1.0, 0.0, 0.0);
    let c = pt(0.0, 1.0, 0.0);
    let d = pt(0.0, 0.0, 1.0);
    let mut hole = Vec::new();
    toggle_face(&mut hole, Face::new(a, b, c));
    toggle_face(&mut hole, Face::new(a, b, d));
    assert_eq!(hole.len(), 2);
    assert_eq!(corners(&hole[0]), (a, b, c));
    assert_eq!(corners(&hole[1]), (a, b, d));
}

#[test]
fn toggle_removes_a_present_face_in_any_order() {
    let a = pt(0.0, 0.0, 0.0);
    let b = pt(1.0, 0.0, 0.0);
    let c = pt(0.0, 1.0, 0.0);
    let d = pt(0.0, 0.0, 1.0);
    let mut hole = Vec::new();
    toggle_face(&mut hole, Face::new(a, b, c));
    toggle_face(&mut hole, Face::new(a, b, d));
    toggle_face(&mut hole, Face::new(a, c, d));
    toggle_face(&mut hole, Face::new(c, a, b));
    assert_eq!(hole.len(), 2);
    assert_eq!(corners(&hole[0]), (a, b, d));
    assert_eq!(corners(&hole[1]), (a, c, d));
}

#[test]
fn toggle_three_times_leaves_the_face() {
    let a = pt(0.0, 0.0, 0.0);
    let b = pt(1.0, 0.0, 0.0);
    let c = pt(0.0, 1.0, 0.0);
    let mut hole = Vec::new();
    toggle_face(&mut hole, Face::new(a, b, c));
    toggle_face(&mut hole, Face::new(b, c, a));
    assert!(hole.is_empty());
    toggle_face(&mut hole, Face::new(c, a, b));
    assert_eq!(hole.len(), 1);
    assert_eq!(corners(&hole[0]), (c, a, b));
}

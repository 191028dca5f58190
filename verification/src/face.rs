use vstd::prelude::*;
use vstd::std_specs::cmp::PartialEqSpecImpl;
use crate::point::Point;

verus! {

/// A triangle given by its three corners. The order of the corners carries no
/// meaning: `==` holds between any two arrangements of the same corners,
/// pattern for pattern, and is the identity under which faces are matched in
/// a hole boundary and in an adjacency. Whether two faces have the same
/// corners within the tolerance is what `almost_equal` says.
#[derive(Copy, Clone, Debug)]
pub struct Face {
    pub p1: Point,
    pub p2: Point,
    pub p3: Point,
}

/// `a` and `b` list the same three corners, in any of the six orders.
pub open spec fn same_face(a: Face, b: Face) -> bool {
    ||| (a.p1 == b.p1 && a.p2 == b.p2 && a.p3 == b.p3)
    ||| (a.p1 == b.p1 && a.p2 == b.p3 && a.p3 == b.p2)
    ||| (a.p1 == b.p2 && a.p2 == b.p1 && a.p3 == b.p3)
    ||| (a.p1 == b.p2 && a.p2 == b.p3 && a.p3 == b.p1)
    ||| (a.p1 == b.p3 && a.p2 == b.p1 && a.p3 == b.p2)
    ||| (a.p1 == b.p3 && a.p2 == b.p2 && a.p3 == b.p1)
}

/// Lexicographic order on coordinate patterns: by `x`, then `y`, then `z`.
pub open spec fn point_le(a: Point, b: Point) -> bool {
    a.x < b.x || (a.x == b.x && (a.y < b.y || (a.y == b.y && a.z <= b.z)))
}

/// Decides `point_le`.
pub fn point_precedes(a: &Point, b: &Point) -> (r: bool)
    ensures
        r == point_le(*a, *b),
{
    a.x < b.x || (a.x == b.x && (a.y < b.y || (a.y == b.y && a.z <= b.z)))
}

/// The one of two points that comes first in the order.
pub open spec fn lower(a: Point, b: Point) -> Point {
    if point_le(a, b) {
        a
    } else {
        b
    }
}

/// The one of two points that comes last in the order.
pub open spec fn upper(a: Point, b: Point) -> Point {
    if point_le(a, b) {
        b
    } else {
        a
    }
}

impl Face {
    /// The triangle with the given corners.
    pub fn new(p1: Point, p2: Point, p3: Point) -> (f: Self)
        ensures
            f == (Face { p1, p2, p3 }),
    {
        Face { p1, p2, p3 }
    }

    /// The corners stand in ascending lexicographic order.
    pub open spec fn ordered(self) -> bool {
        point_le(self.p1, self.p2) && point_le(self.p2, self.p3)
    }

    /// The corners of this face in ascending order: the least, the middle one,
    /// the greatest.
    pub open spec fn canonical_form(self) -> Face {
        let lo = lower(self.p1, self.p2);
        let hi = upper(self.p1, self.p2);
        Face { p1: lower(lo, self.p3), p2: upper(lo, lower(hi, self.p3)), p3: upper(hi, self.p3) }
    }

    /// The arrangement of this face whose corners ascend. Equal faces have the
    /// same canonical arrangement, so it can serve as a key for hashing or
    /// sorting.
    pub fn canonical(&self) -> (r: Face)
        ensures
            r == self.canonical_form(),
            same_face(r, *self),
            r.ordered(),
    {
        let mut a = self.p1;
        let mut b = self.p2;
        let mut c = self.p3;
        if !point_precedes(&a, &b) {
            let t = a;
            a = b;
            b = t;
        }
        if !point_precedes(&b, &c) {
            let t = b;
            b = c;
            c = t;
        }
        if !point_precedes(&a, &b) {
            let t = a;
            a = b;
            b = t;
        }
        Face { p1: a, p2: b, p3: c }
    }
}

impl Face {
    /// `verdict` is one that `difference` can lead to on whether the corners
    /// of this face are, in their order, the points `q1`, `q2`, `q3` within
    /// the tolerance. A later corner is looked at only when the earlier ones
    /// were found equal.
    pub open spec fn matches_by<F: Fn(u64, u64) -> u64>(
        self,
        q1: Point,
        q2: Point,
        q3: Point,
        verdict: bool,
        difference: F,
    ) -> bool {
        exists|e1: bool| #[trigger]
            self.p1.close_by(q1, e1, difference) && if !e1 {
                !verdict
            } else {
                exists|e2: bool| #[trigger]
                    self.p2.close_by(q2, e2, difference) && if !e2 {
                        !verdict
                    } else {
                        self.p3.close_by(q3, verdict, difference)
                    }
            }
    }

    /// `equal` is a verdict that `difference` can lead to on whether the two
    /// faces have the same corners within the tolerance, in any of the six
    /// orders. The orders are tried one after the other, and none after one
    /// that matched.
    pub open spec fn close_by<F: Fn(u64, u64) -> u64>(
        self,
        other: Face,
        equal: bool,
        difference: F,
    ) -> bool {
        let Face { p1, p2, p3 } = other;
        exists|m1: bool| #[trigger]
            self.matches_by(p1, p2, p3, m1, difference) && if m1 {
                equal
            } else {
                exists|m2: bool| #[trigger]
                    self.matches_by(p1, p3, p2, m2, difference) && if m2 {
                        equal
                    } else {
                        exists|m3: bool| #[trigger]
                            self.matches_by(p2, p1, p3, m3, difference) && if m3 {
                                equal
                            } else {
                                exists|m4: bool| #[trigger]
                                    self.matches_by(p2, p3, p1, m4, difference) && if m4 {
                                        equal
                                    } else {
                                        exists|m5: bool| #[trigger]
                                            self.matches_by(p3, p1, p2, m5, difference) && if m5 {
                                                equal
                                            } else {
                                                self.matches_by(p3, p2, p1, equal, difference)
                                            }
                                    }
                            }
                    }
            }
    }

    /// Says whether the corners of this face are `q1`, `q2`, `q3` in this
    /// order, within the tolerance.
    pub fn matches<F: Fn(u64, u64) -> u64>(
        &self,
        q1: &Point,
        q2: &Point,
        q3: &Point,
        difference: &F,
    ) -> (verdict: bool)
        requires
            forall|a: u64, b: u64| difference.requires((a, b)),
        ensures
            self.matches_by(*q1, *q2, *q3, verdict, *difference),
    {
        if !self.p1.almost_equal(q1, difference) {
            return false;
        }
        if !self.p2.almost_equal(q2, difference) {
            return false;
        }
        self.p3.almost_equal(q3, difference)
    }

    /// Says whether the two faces have the same corners within the
    /// tolerance, whatever their order. `difference(a, b)` gives `a - b`.
    pub fn almost_equal<F: Fn(u64, u64) -> u64>(&self, other: &Face, difference: &F) -> (equal:
        bool)
        requires
            forall|a: u64, b: u64| difference.requires((a, b)),
        ensures
            self.close_by(*other, equal, *difference),
    {
        if self.matches(&other.p1, &other.p2, &other.p3, difference) {
            return true;
        }
        if self.matches(&other.p1, &other.p3, &other.p2, difference) {
            return true;
        }
        if self.matches(&other.p2, &other.p1, &other.p3, difference) {
            return true;
        }
        if self.matches(&other.p2, &other.p3, &other.p1, difference) {
            return true;
        }
        if self.matches(&other.p3, &other.p1, &other.p2, difference) {
            return true;
        }
        self.matches(&other.p3, &other.p2, &other.p1, difference)
    }
}

impl PartialEq for Face {
    /// Compares the corners in all six orders.
    fn eq(&self, other: &Self) -> (r: bool) {
        let a = self;
        let b = other;
        (a.p1 == b.p1 && a.p2 == b.p2 && a.p3 == b.p3)
            || (a.p1 == b.p1 && a.p2 == b.p3 && a.p3 == b.p2)
            || (a.p1 == b.p2 && a.p2 == b.p1 && a.p3 == b.p3)
            || (a.p1 == b.p2 && a.p2 == b.p3 && a.p3 == b.p1)
            || (a.p1 == b.p3 && a.p2 == b.p1 && a.p3 == b.p2)
            || (a.p1 == b.p3 && a.p2 == b.p2 && a.p3 == b.p1)
    }
}

impl PartialEqSpecImpl for Face {
    open spec fn obeys_eq_spec() -> bool {
        true
    }

    open spec fn eq_spec(&self, other: &Self) -> bool {
        same_face(*self, *other)
    }
}

impl Eq for Face {}

/// Face identity is reflexive.
pub proof fn lemma_same_face_reflexive(a: Face)
    ensures
        same_face(a, a),
{
}

/// Face identity is symmetric.
pub proof fn lemma_same_face_symmetric(a: Face, b: Face)
    ensures
        same_face(a, b) == same_face(b, a),
{
}

/// Face identity is transitive.
pub proof fn lemma_same_face_transitive(a: Face, b: Face, c: Face)
    requires
        same_face(a, b),
        same_face(b, c),
    ensures
        same_face(a, c),
{
}

/// Two ordered arrangements of the same corners are the same value.
pub proof fn lemma_ordered_unique(a: Face, b: Face)
    requires
        same_face(a, b),
        a.ordered(),
        b.ordered(),
    ensures
        a == b,
{
}

/// The canonical form of a face is an arrangement of that face, in order; two
/// faces are equal exactly when their canonical forms are the same value.
pub proof fn lemma_canonical_form(a: Face, b: Face)
    ensures
        same_face(a.canonical_form(), a),
        a.canonical_form().ordered(),
        same_face(a, b) <==> a.canonical_form() == b.canonical_form(),
{
    let ca = a.canonical_form();
    let cb = b.canonical_form();
    assert(same_face(ca, a) && ca.ordered());
    assert(same_face(cb, b) && cb.ordered());
    if same_face(a, b) {
        lemma_same_face_transitive(ca, a, b);
        lemma_same_face_transitive(ca, b, cb);
        lemma_ordered_unique(ca, cb);
    }
    if ca == cb {
        lemma_same_face_transitive(a, ca, b);
    }
}

/// The six faces that can be made of three points, in whatever order the
/// points are given, are equal to one another and have one canonical form.
pub proof fn lemma_face_symmetry(p: Point, q: Point, r: Point)
    ensures
        same_face(Face { p1: p, p2: q, p3: r }, Face { p1: p, p2: r, p3: q }),
        same_face(Face { p1: p, p2: q, p3: r }, Face { p1: q, p2: p, p3: r }),
        same_face(Face { p1: p, p2: q, p3: r }, Face { p1: q, p2: r, p3: p }),
        same_face(Face { p1: p, p2: q, p3: r }, Face { p1: r, p2: p, p3: q }),
        same_face(Face { p1: p, p2: q, p3: r }, Face { p1: r, p2: q, p3: p }),
        (Face { p1: p, p2: q, p3: r }).canonical_form() == (Face {
            p1: p,
            p2: r,
            p3: q,
        }).canonical_form(),
        (Face { p1: p, p2: q, p3: r }).canonical_form() == (Face {
            p1: q,
            p2: p,
            p3: r,
        }).canonical_form(),
        (Face { p1: p, p2: q, p3: r }).canonical_form() == (Face {
            p1: q,
            p2: r,
            p3: p,
        }).canonical_form(),
        (Face { p1: p, p2: q, p3: r }).canonical_form() == (Face {
            p1: r,
            p2: p,
            p3: q,
        }).canonical_form(),
        (Face { p1: p, p2: q, p3: r }).canonical_form() == (Face {
            p1: r,
            p2: q,
            p3: p,
        }).canonical_form(),
{
    let f = Face { p1: p, p2: q, p3: r };
    lemma_canonical_form(f, Face { p1: p, p2: r, p3: q });
    lemma_canonical_form(f, Face { p1: q, p2: p, p3: r });
    lemma_canonical_form(f, Face { p1: q, p2: r, p3: p });
    lemma_canonical_form(f, Face { p1: r, p2: p, p3: q });
    lemma_canonical_form(f, Face { p1: r, p2: q, p3: p });
}

/// Corners that `difference` finds equal to themselves match themselves.
pub proof fn lemma_matches_itself<F: Fn(u64, u64) -> u64>(a: Face, verdict: bool, difference: F)
    requires
        a.matches_by(a.p1, a.p2, a.p3, verdict, difference),
        a.p1.self_equal(difference),
        a.p2.self_equal(difference),
        a.p3.self_equal(difference),
    ensures
        verdict,
{
}

/// Two faces with the same corners pattern for pattern, in whatever order,
/// are found equal within the tolerance, where `difference` finds each corner
/// equal to itself.
pub proof fn lemma_same_face_close<F: Fn(u64, u64) -> u64>(
    a: Face,
    b: Face,
    equal: bool,
    difference: F,
)
    requires
        same_face(a, b),
        a.close_by(b, equal, difference),
        a.p1.self_equal(difference),
        a.p2.self_equal(difference),
        a.p3.self_equal(difference),
    ensures
        equal,
{
    let Face { p1, p2, p3 } = b;
    if a.p1 == p1 && a.p2 == p2 && a.p3 == p3 {
        assert forall|m: bool| a.matches_by(p1, p2, p3, m, difference) implies m by {
            lemma_matches_itself(a, m, difference);
        }
    }
    if a.p1 == p1 && a.p2 == p3 && a.p3 == p2 {
        assert forall|m: bool| a.matches_by(p1, p3, p2, m, difference) implies m by {
            lemma_matches_itself(a, m, difference);
        }
    }
    if a.p1 == p2 && a.p2 == p1 && a.p3 == p3 {
        assert forall|m: bool| a.matches_by(p2, p1, p3, m, difference) implies m by {
            lemma_matches_itself(a, m, difference);
        }
    }
    if a.p1 == p2 && a.p2 == p3 && a.p3 == p1 {
        assert forall|m: bool| a.matches_by(p2, p3, p1, m, difference) implies m by {
            lemma_matches_itself(a, m, difference);
        }
    }
    if a.p1 == p3 && a.p2 == p1 && a.p3 == p2 {
        assert forall|m: bool| a.matches_by(p3, p1, p2, m, difference) implies m by {
            lemma_matches_itself(a, m, difference);
        }
    }
    if a.p1 == p3 && a.p2 == p2 && a.p3 == p1 {
        assert forall|m: bool| a.matches_by(p3, p2, p1, m, difference) implies m by {
            lemma_matches_itself(a, m, difference);
        }
    }
}

} // verus!

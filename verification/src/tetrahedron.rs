use vstd::prelude::*;
use crate::face::Face;
use crate::number::{at_most, pattern_le};
use crate::point::Point;

verus! {

/// A cell: four corners and the sphere through them, given by its centre and
/// the pattern of its squared radius. The sphere is supplied when the cell is
/// made and never recomputed.
#[derive(Copy, Clone, Debug, PartialEq, Eq, Structural)]
pub struct Tetrahedron {
    pub p1: Point,
    pub p2: Point,
    pub p3: Point,
    pub p4: Point,
    pub circumcenter: Point,
    pub circumradius: u64,
}

impl Tetrahedron {
    /// The cell with the given corners and the given sphere.
    pub fn new(
        p1: Point,
        p2: Point,
        p3: Point,
        p4: Point,
        circumcenter: Point,
        circumradius: u64,
    ) -> (t: Self)
        ensures
            t == (Tetrahedron { p1, p2, p3, p4, circumcenter, circumradius }),
    {
        Tetrahedron { p1, p2, p3, p4, circumcenter, circumradius }
    }

    /// `point` is, pattern for pattern, one of the four corners.
    pub open spec fn has_vertex(self, point: Point) -> bool {
        self.p1 == point || self.p2 == point || self.p3 == point || self.p4 == point
    }

    /// `found` is a verdict on `point` that differences of coordinates, as
    /// `difference` can give them, lead to: found when one of the corners is
    /// the same position as `point` within the tolerance. The corners are
    /// looked at in their order, and none after one that was found equal.
    pub open spec fn has_point_by<F: Fn(u64, u64) -> u64>(
        self,
        point: Point,
        found: bool,
        difference: F,
    ) -> bool {
        exists|e1: bool| #[trigger]
            self.p1.close_by(point, e1, difference) && if e1 {
                found
            } else {
                exists|e2: bool| #[trigger]
                    self.p2.close_by(point, e2, difference) && if e2 {
                        found
                    } else {
                        exists|e3: bool| #[trigger]
                            self.p3.close_by(point, e3, difference) && if e3 {
                                found
                            } else {
                                self.p4.close_by(point, found, difference)
                            }
                    }
            }
    }

    /// Says whether `point` is one of the four corners, within the
    /// tolerance. `difference(a, b)` gives `a - b`.
    pub fn has_point<F: Fn(u64, u64) -> u64>(&self, point: &Point, difference: &F) -> (found: bool)
        requires
            forall|a: u64, b: u64| difference.requires((a, b)),
        ensures
            self.has_point_by(*point, found, *difference),
    {
        if self.p1.almost_equal(point, difference) {
            return true;
        }
        if self.p2.almost_equal(point, difference) {
            return true;
        }
        if self.p3.almost_equal(point, difference) {
            return true;
        }
        self.p4.almost_equal(point, difference)
    }

    /// `inside` is a verdict on `point` that a squared distance from `point`
    /// to the sphere's centre, as `distance` can give it, leads to: inside
    /// when the distance is at most the squared radius.
    pub open spec fn holds_by<D: Fn(Point, Point) -> u64>(
        self,
        point: Point,
        inside: bool,
        distance: D,
    ) -> bool {
        exists|d: u64| #[trigger]
            distance.ensures((point, self.circumcenter), d) && inside == at_most(
                d,
                self.circumradius,
            )
    }

    /// Says whether `point` lies in or on the sphere of this cell.
    /// `distance(a, b)` gives the squared distance between two points.
    pub fn has_point_circumcircle<D: Fn(Point, Point) -> u64>(
        &self,
        point: &Point,
        distance: &D,
    ) -> (inside: bool)
        requires
            distance.requires((*point, self.circumcenter)),
        ensures
            self.holds_by(*point, inside, *distance),
    {
        let d = distance(*point, self.circumcenter);
        pattern_le(d, self.circumradius)
    }

    /// The four triangles of the cell, each leaving out one corner: the
    /// fourth, the third, the second, the first.
    pub open spec fn face_seq(self) -> Seq<Face> {
        seq![
            Face { p1: self.p1, p2: self.p2, p3: self.p3 },
            Face { p1: self.p1, p2: self.p2, p3: self.p4 },
            Face { p1: self.p1, p2: self.p3, p3: self.p4 },
            Face { p1: self.p2, p2: self.p3, p3: self.p4 },
        ]
    }

    /// Returns the four triangles of the cell.
    pub fn faces(&self) -> (r: [Face; 4])
        ensures
            r@ == self.face_seq(),
    {
        let r = [
            Face::new(self.p1, self.p2, self.p3),
            Face::new(self.p1, self.p2, self.p4),
            Face::new(self.p1, self.p3, self.p4),
            Face::new(self.p2, self.p3, self.p4),
        ];
        assert(r@ =~= self.face_seq());
        r
    }

    /// The sphere's centre is a finite point; a cell built from coplanar
    /// corners fails this.
    pub open spec fn well_formed(self) -> bool {
        self.circumcenter.finite()
    }
}

} // verus!

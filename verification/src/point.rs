use vstd::prelude::*;
use crate::number::{
    almost_equal, cancels, close_by, differ_by_less, differ_by_more, finite_pattern,
    lemma_tolerance, normal_pattern, pattern_is_finite, pattern_is_normal,
};

verus! {

/// A position in space, one 64-bit floating-point pattern per coordinate.
///
/// `==` holds between two points exactly when their patterns agree; this is
/// the identity under which faces are matched. Whether two points are the
/// same position within the tolerance is what `almost_equal` says.
#[derive(Copy, Clone, Debug, PartialEq, Eq, Structural, Hash)]
pub struct Point {
    pub x: u64,
    pub y: u64,
    pub z: u64,
}

impl Point {
    /// The point with the given coordinate patterns.
    pub fn new(x: u64, y: u64, z: u64) -> (p: Self)
        ensures
            p == (Point { x, y, z }),
    {
        Point { x, y, z }
    }

    /// All three coordinates are normal numbers.
    pub open spec fn normal(self) -> bool {
        normal_pattern(self.x) && normal_pattern(self.y) && normal_pattern(self.z)
    }

    /// Says whether all three coordinates are normal numbers: none of them
    /// zero, subnormal, infinite or not a number.
    pub fn is_normal(&self) -> (r: bool)
        ensures
            r == self.normal(),
    {
        pattern_is_normal(self.x) && pattern_is_normal(self.y) && pattern_is_normal(self.z)
    }

    /// All three coordinates are finite numbers.
    pub open spec fn finite(self) -> bool {
        finite_pattern(self.x) && finite_pattern(self.y) && finite_pattern(self.z)
    }

    /// Says whether all three coordinates are finite: none of them infinite
    /// or not a number.
    pub fn is_finite(&self) -> (r: bool)
        ensures
            r == self.finite(),
    {
        pattern_is_finite(self.x) && pattern_is_finite(self.y) && pattern_is_finite(self.z)
    }

    /// Every verdict that `difference` can lead to on this point and itself
    /// is "equal".
    pub open spec fn self_equal<F: Fn(u64, u64) -> u64>(self, difference: F) -> bool {
        forall|equal: bool| #[trigger] self.close_by(self, equal, difference) ==> equal
    }

    /// `equal` is a verdict on the two points that differences of their
    /// coordinates, as `difference` can give them, lead to: equal when no
    /// coordinate differs by more than the tolerance. A later coordinate is
    /// looked at only when the earlier ones were found equal.
    pub open spec fn close_by<F: Fn(u64, u64) -> u64>(
        self,
        other: Point,
        equal: bool,
        difference: F,
    ) -> bool {
        exists|ex: bool| #[trigger]
            close_by(self.x, other.x, ex, difference) && if !ex {
                !equal
            } else {
                exists|ey: bool| #[trigger]
                    close_by(self.y, other.y, ey, difference) && if !ey {
                        !equal
                    } else {
                        close_by(self.z, other.z, equal, difference)
                    }
            }
    }

    /// Says whether the two points are the same position within the
    /// tolerance. `difference(a, b)` gives `a - b`.
    pub fn almost_equal<F: Fn(u64, u64) -> u64>(&self, other: &Point, difference: &F) -> (equal:
        bool)
        requires
            forall|a: u64, b: u64| difference.requires((a, b)),
        ensures
            self.close_by(*other, equal, *difference),
    {
        if !almost_equal(self.x, other.x, difference) {
            return false;
        }
        if !almost_equal(self.y, other.y, difference) {
            return false;
        }
        almost_equal(self.z, other.z, difference)
    }
}

/// Two points that differ in each coordinate by less than the tolerance are
/// found equal; two points that differ in some coordinate by more than the
/// tolerance are found unequal.
pub proof fn lemma_point_tolerance<F: Fn(u64, u64) -> u64>(
    p: Point,
    q: Point,
    equal: bool,
    difference: F,
)
    requires
        p.close_by(q, equal, difference),
    ensures
        differ_by_less(p.x, q.x, difference) && differ_by_less(p.y, q.y, difference)
            && differ_by_less(p.z, q.z, difference) ==> equal,
        differ_by_more(p.x, q.x, difference) || differ_by_more(p.y, q.y, difference)
            || differ_by_more(p.z, q.z, difference) ==> !equal,
{
    let ex = choose|ex: bool| #[trigger]
        close_by(p.x, q.x, ex, difference) && if !ex {
            !equal
        } else {
            exists|ey: bool| #[trigger]
                close_by(p.y, q.y, ey, difference) && if !ey {
                    !equal
                } else {
                    close_by(p.z, q.z, equal, difference)
                }
        };
    lemma_tolerance(p.x, q.x, ex, difference);
    if ex {
        let ey = choose|ey: bool| #[trigger]
            close_by(p.y, q.y, ey, difference) && if !ey {
                !equal
            } else {
                close_by(p.z, q.z, equal, difference)
            };
        lemma_tolerance(p.y, q.y, ey, difference);
        if ey {
            lemma_tolerance(p.z, q.z, equal, difference);
        }
    }
}

/// A finite point is found equal to itself by a `difference` that finds
/// every finite number equal to itself.
pub proof fn lemma_self_equal<F: Fn(u64, u64) -> u64>(p: Point, difference: F)
    requires
        p.finite(),
        cancels(difference),
    ensures
        p.self_equal(difference),
{
}

} // verus!

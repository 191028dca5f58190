use vstd::prelude::*;
use crate::number::{less, not_a_number, pattern_lt};
use crate::point::Point;

verus! {

/// The first coordinates of the points.
pub open spec fn xs(points: Seq<Point>) -> Seq<u64> {
    Seq::new(points.len(), |i: int| points[i].x)
}

/// The second coordinates of the points.
pub open spec fn ys(points: Seq<Point>) -> Seq<u64> {
    Seq::new(points.len(), |i: int| points[i].y)
}

/// The third coordinates of the points.
pub open spec fn zs(points: Seq<Point>) -> Seq<u64> {
    Seq::new(points.len(), |i: int| points[i].z)
}

/// The running minimum of a list of numbers: the first one, replaced by each
/// later one that is less than what is held.
pub open spec fn lowest(v: Seq<u64>) -> u64
    decreases v.len(),
{
    if v.len() <= 1 {
        v[0]
    } else {
        let held = lowest(v.drop_last());
        if less(v.last(), held) {
            v.last()
        } else {
            held
        }
    }
}

/// The running maximum of a list of numbers: the first one, replaced by each
/// later one that what is held is less than.
pub open spec fn highest(v: Seq<u64>) -> u64
    decreases v.len(),
{
    if v.len() <= 1 {
        v[0]
    } else {
        let held = highest(v.drop_last());
        if less(held, v.last()) {
            v.last()
        } else {
            held
        }
    }
}

/// The greatest of a list of numbers; of several that are equally great, the
/// last.
pub open spec fn largest_of(v: Seq<u64>) -> u64
    decreases v.len(),
{
    if v.len() <= 1 {
        v[0]
    } else {
        let held = largest_of(v.drop_last());
        if less(v.last(), held) {
            held
        } else {
            v.last()
        }
    }
}

/// The running minimum is one of the numbers, and none of them is less.
pub proof fn lemma_lowest(v: Seq<u64>)
    requires
        v.len() > 0,
    ensures
        v.contains(lowest(v)),
        forall|i: int| 0 <= i < v.len() ==> !less(#[trigger] v[i], lowest(v)),
    decreases v.len(),
{
    if v.len() > 1 {
        let rest = v.drop_last();
        lemma_lowest(rest);
        let held = lowest(rest);
        let k = choose|k: int| 0 <= k < rest.len() && rest[k] == held;
        assert(v[k] == held);
        assert forall|i: int| 0 <= i < v.len() implies !less(#[trigger] v[i], lowest(v)) by {
            if i < rest.len() {
                assert(rest[i] == v[i]);
            }
        }
    }
}

/// The running maximum is one of the numbers, and it is less than none of
/// them.
pub proof fn lemma_highest(v: Seq<u64>)
    requires
        v.len() > 0,
    ensures
        v.contains(highest(v)),
        forall|i: int| 0 <= i < v.len() ==> !less(highest(v), #[trigger] v[i]),
    decreases v.len(),
{
    if v.len() > 1 {
        let rest = v.drop_last();
        lemma_highest(rest);
        let held = highest(rest);
        let k = choose|k: int| 0 <= k < rest.len() && rest[k] == held;
        assert(v[k] == held);
        assert forall|i: int| 0 <= i < v.len() implies !less(highest(v), #[trigger] v[i]) by {
            if i < rest.len() {
                assert(rest[i] == v[i]);
            }
        }
    }
}

/// Among numbers, the greatest is one of them and at least each of them.
pub proof fn lemma_largest_of(v: Seq<u64>)
    requires
        v.len() > 0,
        forall|i: int| 0 <= i < v.len() ==> !not_a_number(#[trigger] v[i]),
    ensures
        v.contains(largest_of(v)),
        forall|i: int| 0 <= i < v.len() ==> !less(largest_of(v), #[trigger] v[i]),
    decreases v.len(),
{
    if v.len() > 1 {
        let rest = v.drop_last();
        assert forall|i: int| 0 <= i < rest.len() implies !not_a_number(#[trigger] rest[i]) by {
            assert(rest[i] == v[i]);
        }
        lemma_largest_of(rest);
        let held = largest_of(rest);
        let k = choose|k: int| 0 <= k < rest.len() && rest[k] == held;
        assert(v[k] == held);
        assert forall|i: int| 0 <= i < v.len() implies !less(largest_of(v), #[trigger] v[i]) by {
            if i < rest.len() {
                assert(rest[i] == v[i]);
            }
        }
    }
}

/// The axis-aligned box around the points: its least corner and its greatest
/// corner, each coordinate found by a running comparison from the first point
/// on.
pub fn bounding_box(points: &[Point]) -> (r: (Point, Point))
    requires
        points@.len() > 0,
    ensures
        r.0 == (Point { x: lowest(xs(points@)), y: lowest(ys(points@)), z: lowest(zs(points@)) }),
        r.1 == (Point {
            x: highest(xs(points@)),
            y: highest(ys(points@)),
            z: highest(zs(points@)),
        }),
{
    let mut lo = points[0];
    let mut hi = points[0];
    let mut i: usize = 1;
    assert(xs(points@).take(1).len() == 1 && ys(points@).take(1).len() == 1 && zs(
        points@,
    ).take(1).len() == 1);
    while i < points.len()
        invariant
            1 <= i <= points.len(),
            lo.x == lowest(xs(points@).take(i as int)),
            lo.y == lowest(ys(points@).take(i as int)),
            lo.z == lowest(zs(points@).take(i as int)),
            hi.x == highest(xs(points@).take(i as int)),
            hi.y == highest(ys(points@).take(i as int)),
            hi.z == highest(zs(points@).take(i as int)),
        decreases points.len() - i,
    {
        let p = points[i];
        proof {
            assert(xs(points@).take(i + 1).drop_last() =~= xs(points@).take(i as int));
            assert(ys(points@).take(i + 1).drop_last() =~= ys(points@).take(i as int));
            assert(zs(points@).take(i + 1).drop_last() =~= zs(points@).take(i as int));
        }
        if pattern_lt(p.x, lo.x) {
            lo.x = p.x;
        }
        if pattern_lt(p.y, lo.y) {
            lo.y = p.y;
        }
        if pattern_lt(p.z, lo.z) {
            lo.z = p.z;
        }
        if pattern_lt(hi.x, p.x) {
            hi.x = p.x;
        }
        if pattern_lt(hi.y, p.y) {
            hi.y = p.y;
        }
        if pattern_lt(hi.z, p.z) {
            hi.z = p.z;
        }
        i += 1;
    }
    proof {
        assert(xs(points@).take(i as int) =~= xs(points@));
        assert(ys(points@).take(i as int) =~= ys(points@));
        assert(zs(points@).take(i as int) =~= zs(points@));
    }
    (lo, hi)
}

/// The greatest of the given numbers, the last one of several that are
/// equally great.
pub fn largest(values: &[u64]) -> (r: u64)
    requires
        values@.len() > 0,
        forall|i: int| 0 <= i < values@.len() ==> !not_a_number(#[trigger] values@[i]),
    ensures
        r == largest_of(values@),
{
    let mut held = values[0];
    let mut i: usize = 1;
    while i < values.len()
        invariant
            1 <= i <= values.len(),
            held == largest_of(values@.take(i as int)),
        decreases values.len() - i,
    {
        proof {
            assert(values@.take(i + 1).drop_last() =~= values@.take(i as int));
        }
        if !pattern_lt(values[i], held) {
            held = values[i];
        }
        i += 1;
    }
    assert(values@.take(i as int) =~= values@);
    held
}

} // verus!

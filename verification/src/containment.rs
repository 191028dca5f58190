use vstd::prelude::*;
use crate::edge::Edge;
use crate::face::Face;
use crate::number::{magnitude, negative, not_a_number, split, INFINITY};
use crate::point::Point;

verus! {

/// On which side of a plane a point lies, as far as the arithmetic could
/// tell: strictly on one side, on the plane (`Zero`), or not a number
/// (`Undefined`).
#[derive(Copy, Clone, Debug, PartialEq, Eq, Structural)]
pub enum Sign {
    Negative,
    Zero,
    Positive,
    Undefined,
}

/// The sign names a side of the plane.
pub open spec fn strict(a: Sign) -> bool {
    a == Sign::Negative || a == Sign::Positive
}

/// Both signs name the same side.
pub open spec fn agree(a: Sign, b: Sign) -> bool {
    strict(a) && a == b
}

/// The signs name the two different sides.
pub open spec fn opposite(a: Sign, b: Sign) -> bool {
    strict(a) && strict(b) && a != b
}

/// The side that a signed volume stands for: none when it is not a number,
/// `Zero` when it is zero of either sign, else its sign, however small the
/// volume.
pub open spec fn sign_of(volume: u64) -> Sign {
    if not_a_number(volume) {
        Sign::Undefined
    } else if magnitude(volume) == 0 {
        Sign::Zero
    } else if negative(volume) {
        Sign::Negative
    } else {
        Sign::Positive
    }
}

/// Decides `sign_of`.
pub fn classify(volume: u64) -> (s: Sign)
    ensures
        s == sign_of(volume),
{
    let (m, n) = split(volume);
    if m > INFINITY {
        Sign::Undefined
    } else if m == 0 {
        Sign::Zero
    } else if n {
        Sign::Negative
    } else {
        Sign::Positive
    }
}

/// A segment crosses a triangle when its two ends lie strictly on opposite
/// sides of the triangle's plane, and the segment lies strictly on one and the
/// same side of the three planes through itself and one edge of the triangle
/// each. A sign that names no side, as when the segment grazes an edge or
/// lies in the plane, means no crossing.
pub open spec fn crosses(ends: (Sign, Sign), edges: (Sign, Sign, Sign)) -> bool {
    opposite(ends.0, ends.1) && agree(edges.0, edges.1) && agree(edges.1, edges.2)
}

/// How many of the flags are set.
pub open spec fn count_set(hits: Seq<bool>) -> nat
    decreases hits.len(),
{
    if hits.len() == 0 {
        0
    } else {
        count_set(hits.drop_last()) + if hits.last() {
            1nat
        } else {
            0nat
        }
    }
}

/// An odd number of the flags is set.
pub open spec fn odd_count(hits: Seq<bool>) -> bool {
    count_set(hits) % 2 == 1
}

/// The flags set in two lists joined are those set in the one and those set
/// in the other: the parity of a surface in two parts is the exclusive or of
/// the parities of the parts, whichever part comes first.
pub proof fn lemma_count_joined(a: Seq<bool>, b: Seq<bool>)
    ensures
        count_set(a + b) == count_set(a) + count_set(b),
        odd_count(a + b) == (odd_count(a) != odd_count(b)),
        odd_count(a + b) == odd_count(b + a),
{
    lemma_count_sum(a, b);
    lemma_count_sum(b, a);
}

proof fn lemma_count_sum(a: Seq<bool>, b: Seq<bool>)
    ensures
        count_set(a + b) == count_set(a) + count_set(b),
    decreases b.len(),
{
    if b.len() == 0 {
        assert(a + b =~= a);
    } else {
        lemma_count_sum(a, b.drop_last());
        assert((a + b).drop_last() =~= a + b.drop_last());
    }
}

/// Decides `agree`.
pub fn signs_agree(a: Sign, b: Sign) -> (r: bool)
    ensures
        r == agree(a, b),
{
    match (a, b) {
        (Sign::Negative, Sign::Negative) => true,
        (Sign::Positive, Sign::Positive) => true,
        _ => false,
    }
}

/// Decides `opposite`.
pub fn signs_opposite(a: Sign, b: Sign) -> (r: bool)
    ensures
        r == opposite(a, b),
{
    match (a, b) {
        (Sign::Negative, Sign::Positive) => true,
        (Sign::Positive, Sign::Negative) => true,
        _ => false,
    }
}

/// Decides from the five orientation signs of a segment and a triangle
/// whether the segment crosses the triangle.
pub fn segment_crosses(ends: (Sign, Sign), edges: (Sign, Sign, Sign)) -> (hit: bool)
    ensures
        hit == crosses(ends, edges),
{
    signs_opposite(ends.0, ends.1) && signs_agree(edges.0, edges.1) && signs_agree(
        edges.1,
        edges.2,
    )
}

/// Decides containment from one crossing flag per boundary face: inside when
/// the boundary is empty or the ray crosses it an odd number of times.
pub fn inside_by_parity(hits: &[bool]) -> (inside: bool)
    ensures
        inside == (hits@.len() == 0 || odd_count(hits@)),
{
    let mut odd = false;
    let mut i: usize = 0;
    while i < hits.len()
        invariant
            i <= hits.len(),
            odd == odd_count(hits@.take(i as int)),
        decreases hits.len() - i,
    {
        proof {
            let next = hits@.take(i + 1);
            assert(next.drop_last() =~= hits@.take(i as int));
            assert(next.last() == hits@[i as int]);
        }
        if hits[i] {
            odd = !odd;
        }
        i += 1;
    }
    assert(hits@.take(i as int) =~= hits@);
    hits.len() == 0 || odd
}

/// `s` is a side that a volume of `volume` for these four points leads to.
pub open spec fn side_by<V: Fn(Point, Point, Point, Point) -> u64>(
    a: Point,
    b: Point,
    c: Point,
    d: Point,
    s: Sign,
    volume: V,
) -> bool {
    exists|v: u64| #[trigger] volume.ensures((a, b, c, d), v) && s == sign_of(v)
}

/// `hit` is a verdict that volumes of `volume` can lead to for `segment` and
/// the triangle `face`. The three edge signs are asked for only when the two
/// end signs are opposite.
pub open spec fn crossing_by<V: Fn(Point, Point, Point, Point) -> u64>(
    segment: Edge,
    face: Face,
    hit: bool,
    volume: V,
) -> bool {
    let q1 = segment.p1;
    let q2 = segment.p2;
    exists|s1: Sign, s2: Sign|
        {
            &&& #[trigger] side_by(q1, face.p1, face.p2, face.p3, s1, volume)
            &&& #[trigger] side_by(q2, face.p1, face.p2, face.p3, s2, volume)
            &&& if !opposite(s1, s2) {
                !hit
            } else {
                exists|s3: Sign, s4: Sign, s5: Sign|
                    {
                        &&& #[trigger] side_by(q1, q2, face.p1, face.p2, s3, volume)
                        &&& #[trigger] side_by(q1, q2, face.p2, face.p3, s4, volume)
                        &&& #[trigger] side_by(q1, q2, face.p3, face.p1, s5, volume)
                        &&& hit == crosses((s1, s2), (s3, s4, s5))
                    }
            }
        }
}

/// `hits` holds one possible verdict for each face of `shape`.
pub open spec fn crossings_by<V: Fn(Point, Point, Point, Point) -> u64>(
    segment: Edge,
    shape: Seq<Face>,
    hits: Seq<bool>,
    volume: V,
) -> bool {
    &&& hits.len() == shape.len()
    &&& forall|i: int|
        0 <= i < shape.len() ==> crossing_by(segment, shape[i], #[trigger] hits[i], volume)
}

/// `volume` is a function: it can give one result only for the same four
/// points.
pub open spec fn single_volume<V: Fn(Point, Point, Point, Point) -> u64>(volume: V) -> bool {
    forall|a: Point, b: Point, c: Point, d: Point, r1: u64, r2: u64|
        #[trigger] volume.ensures((a, b, c, d), r1) && #[trigger] volume.ensures((a, b, c, d), r2)
            ==> r1 == r2
}

/// With arithmetic that is a function, the test of a segment against a
/// triangle has one verdict.
pub proof fn lemma_crossing_unique<V: Fn(Point, Point, Point, Point) -> u64>(
    segment: Edge,
    face: Face,
    first: bool,
    second: bool,
    volume: V,
)
    requires
        single_volume(volume),
        crossing_by(segment, face, first, volume),
        crossing_by(segment, face, second, volume),
    ensures
        first == second,
{
}

/// With arithmetic that is a function, the verdicts on a surface are
/// determined, and so is the parity that `point_inside_shape` returns.
pub proof fn lemma_crossings_unique<V: Fn(Point, Point, Point, Point) -> u64>(
    segment: Edge,
    shape: Seq<Face>,
    first: Seq<bool>,
    second: Seq<bool>,
    volume: V,
)
    requires
        single_volume(volume),
        crossings_by(segment, shape, first, volume),
        crossings_by(segment, shape, second, volume),
    ensures
        first == second,
{
    assert forall|i: int| 0 <= i < shape.len() implies first[i] == second[i] by {
        lemma_crossing_unique(segment, shape[i], first[i], second[i], volume);
    }
    assert(first =~= second);
}

/// The side of the plane through `b`, `c`, `d` on which `a` lies.
/// `volume(a, b, c, d)` gives the signed volume that the four points span.
pub fn orient_3d<V: Fn(Point, Point, Point, Point) -> u64>(
    a: Point,
    b: Point,
    c: Point,
    d: Point,
    volume: &V,
) -> (s: Sign)
    requires
        volume.requires((a, b, c, d)),
    ensures
        side_by(a, b, c, d, s, *volume),
{
    classify(volume(a, b, c, d))
}

/// Tests a segment against one triangle.
pub fn intersect<V: Fn(Point, Point, Point, Point) -> u64>(
    segment: &Edge,
    face: &Face,
    volume: &V,
) -> (hit: bool)
    requires
        forall|a: Point, b: Point, c: Point, d: Point| volume.requires((a, b, c, d)),
    ensures
        crossing_by(*segment, *face, hit, *volume),
{
    let q1 = segment.p1;
    let q2 = segment.p2;
    let s1 = orient_3d(q1, face.p1, face.p2, face.p3, volume);
    let s2 = orient_3d(q2, face.p1, face.p2, face.p3, volume);
    if !signs_opposite(s1, s2) {
        return false;
    }
    let s3 = orient_3d(q1, q2, face.p1, face.p2, volume);
    let s4 = orient_3d(q1, q2, face.p2, face.p3, volume);
    let s5 = orient_3d(q1, q2, face.p3, face.p1, volume);
    segment_crosses((s1, s2), (s3, s4, s5))
}

/// Says whether `point` lies inside the closed surface `shape`, by counting
/// how often the segment from `point` to `far` crosses it. `far` must lie
/// beyond the surface; `volume(a, b, c, d)` gives the signed volume that four
/// points span. An empty surface contains every point.
pub fn point_inside_shape<V: Fn(Point, Point, Point, Point) -> u64>(
    point: &Point,
    far: &Point,
    shape: &[Face],
    volume: V,
) -> (inside: bool)
    requires
        forall|a: Point, b: Point, c: Point, d: Point| volume.requires((a, b, c, d)),
    ensures
        shape@.len() == 0 ==> inside,
        exists|hits: Seq<bool>|
            {
                &&& #[trigger] crossings_by(
                    Edge { p1: *point, p2: *far },
                    shape@,
                    hits,
                    volume,
                )
                &&& inside == (shape@.len() == 0 || odd_count(hits))
            },
{
    let segment = Edge::new(*point, *far);
    let mut hits: Vec<bool> = Vec::new();
    let mut i: usize = 0;
    while i < shape.len()
        invariant
            i <= shape.len(),
            hits.len() == i,
            forall|a: Point, b: Point, c: Point, d: Point| volume.requires((a, b, c, d)),
            forall|k: int|
                0 <= k < i ==> crossing_by(segment, shape@[k], #[trigger] hits@[k], volume),
        decreases shape.len() - i,
    {
        let hit = intersect(&segment, &shape[i], &volume);
        hits.push(hit);
        i += 1;
    }
    let inside = inside_by_parity(hits.as_slice());
    assert(crossings_by(segment, shape@, hits@, volume));
    inside
}

} // verus!

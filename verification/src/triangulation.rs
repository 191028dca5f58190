use vstd::prelude::*;
use crate::cavity::{
    after_insertion, bad_faces, carve, discard_flagged, fill, flagged, hole_boundary,
    lemma_bad_faces_source, lemma_survivors_cleared, new_cells, survivors,
};
use crate::face::Face;
use crate::hole::lemma_toggle_all_source;
use crate::number::{at_most, single_difference};
use crate::point::Point;
use crate::tetrahedron::Tetrahedron;

verus! {

/// `t` has, pattern for pattern, a corner of `enclosing` among its corners.
pub open spec fn touches(t: Tetrahedron, enclosing: Tetrahedron) -> bool {
    t.has_vertex(enclosing.p1) || t.has_vertex(enclosing.p2) || t.has_vertex(enclosing.p3)
        || t.has_vertex(enclosing.p4)
}

/// `touching` is a verdict on `t` that `difference` can lead to: touching
/// when one of the corners of `enclosing` is a corner of `t` within the
/// tolerance. The corners of `enclosing` are looked at in their order, and
/// none after one that was found.
pub open spec fn touches_by<F: Fn(u64, u64) -> u64>(
    t: Tetrahedron,
    enclosing: Tetrahedron,
    touching: bool,
    difference: F,
) -> bool {
    exists|h1: bool| #[trigger]
        t.has_point_by(enclosing.p1, h1, difference) && if h1 {
            touching
        } else {
            exists|h2: bool| #[trigger]
                t.has_point_by(enclosing.p2, h2, difference) && if h2 {
                    touching
                } else {
                    exists|h3: bool| #[trigger]
                        t.has_point_by(enclosing.p3, h3, difference) && if h3 {
                            touching
                        } else {
                            t.has_point_by(enclosing.p4, touching, difference)
                        }
                }
        }
}

/// `touching` holds, for each cell, a verdict that `difference` can lead to
/// on whether the cell touches `enclosing`.
pub open spec fn stripped_by<F: Fn(u64, u64) -> u64>(
    cells: Seq<Tetrahedron>,
    enclosing: Tetrahedron,
    touching: Seq<bool>,
    difference: F,
) -> bool {
    &&& touching.len() == cells.len()
    &&& forall|i: int|
        0 <= i < cells.len() ==> touches_by(cells[i], enclosing, #[trigger] touching[i], difference)
}

/// `difference` finds each corner of `enclosing` equal to itself, as it does
/// for every finite point when it subtracts.
pub open spec fn corners_self_equal<F: Fn(u64, u64) -> u64>(
    enclosing: Tetrahedron,
    difference: F,
) -> bool {
    enclosing.p1.self_equal(difference) && enclosing.p2.self_equal(difference)
        && enclosing.p3.self_equal(difference) && enclosing.p4.self_equal(difference)
}

/// Says whether `cell` has a corner of `enclosing` among its corners, within
/// the tolerance.
pub fn touches_enclosing<F: Fn(u64, u64) -> u64>(
    cell: &Tetrahedron,
    enclosing: &Tetrahedron,
    difference: &F,
) -> (touching: bool)
    requires
        forall|a: u64, b: u64| difference.requires((a, b)),
    ensures
        touches_by(*cell, *enclosing, touching, *difference),
{
    if cell.has_point(&enclosing.p1, difference) {
        return true;
    }
    if cell.has_point(&enclosing.p2, difference) {
        return true;
    }
    if cell.has_point(&enclosing.p3, difference) {
        return true;
    }
    cell.has_point(&enclosing.p4, difference)
}

/// Keeps the cells that have no corner of `enclosing` among their corners,
/// within the tolerance.
pub fn discard_touching<F: Fn(u64, u64) -> u64>(
    cells: &Vec<Tetrahedron>,
    enclosing: &Tetrahedron,
    difference: &F,
) -> (kept: Vec<Tetrahedron>)
    requires
        forall|a: u64, b: u64| difference.requires((a, b)),
    ensures
        exists|touching: Seq<bool>| #[trigger]
            stripped_by(cells@, *enclosing, touching, *difference) && kept@ == survivors(
                cells@,
                touching,
            ),
{
    let mut touching: Vec<bool> = Vec::new();
    let mut i: usize = 0;
    while i < cells.len()
        invariant
            i <= cells.len(),
            touching.len() == i,
            forall|a: u64, b: u64| difference.requires((a, b)),
            forall|k: int|
                0 <= k < i ==> touches_by(cells@[k], *enclosing, #[trigger] touching@[k], *difference),
        decreases cells.len() - i,
    {
        let verdict = touches_enclosing(&cells[i], enclosing, difference);
        touching.push(verdict);
        i += 1;
    }
    let kept = discard_flagged(cells, &touching);
    assert(stripped_by(cells@, *enclosing, touching@, *difference));
    kept
}

/// `bad` holds, for each cell, a verdict on `point` that `distance` can lead
/// to.
pub open spec fn judged_by<D: Fn(Point, Point) -> u64>(
    cells: Seq<Tetrahedron>,
    point: Point,
    bad: Seq<bool>,
    distance: D,
) -> bool {
    &&& bad.len() == cells.len()
    &&& forall|i: int| 0 <= i < cells.len() ==> cells[i].holds_by(point, #[trigger] bad[i], distance)
}

/// `spheres` holds, for each hole face, a sphere that `circumsphere` can give
/// for the face's corners followed by `point`.
pub open spec fn measured_by<S: Fn(Point, Point, Point, Point) -> (Point, u64)>(
    hole: Seq<Face>,
    point: Point,
    spheres: Seq<(Point, u64)>,
    circumsphere: S,
) -> bool {
    &&& spheres.len() == hole.len()
    &&& forall|j: int|
        0 <= j < hole.len() ==> circumsphere.ensures(
            (hole[j].p1, hole[j].p2, hole[j].p3, point),
            #[trigger] spheres[j],
        )
}

/// `after` is what inserting `point` into `before` gives, for some
/// distances of `distance` and some spheres of `circumsphere`.
pub open spec fn insertion<
    D: Fn(Point, Point) -> u64,
    S: Fn(Point, Point, Point, Point) -> (Point, u64),
>(
    before: Seq<Tetrahedron>,
    point: Point,
    after: Seq<Tetrahedron>,
    distance: D,
    circumsphere: S,
) -> bool {
    exists|bad: Seq<bool>, spheres: Seq<(Point, u64)>|
        {
            &&& judged_by(before, point, bad, distance)
            &&& measured_by(hole_boundary(before, bad), point, spheres, circumsphere)
            &&& after == #[trigger] after_insertion(before, bad, point, spheres)
        }
}

/// `stages` records a whole construction: it starts from the enclosing cell
/// alone, and each further stage is the insertion of the next point into the
/// stage before.
pub open spec fn construction<
    D: Fn(Point, Point) -> u64,
    S: Fn(Point, Point, Point, Point) -> (Point, u64),
>(
    points: Seq<Point>,
    enclosing: Tetrahedron,
    stages: Seq<Seq<Tetrahedron>>,
    distance: D,
    circumsphere: S,
) -> bool {
    &&& stages.len() == points.len() + 1
    &&& stages[0] == seq![enclosing]
    &&& forall|k: int|
        #![trigger stages[k]]
        0 <= k < points.len() ==> insertion(
            stages[k],
            points[k],
            stages[k + 1],
            distance,
            circumsphere,
        )
}

/// Every corner of `t` is one of `points` or a corner of `enclosing`.
pub open spec fn drawn_from(t: Tetrahedron, points: Seq<Point>, enclosing: Tetrahedron) -> bool {
    forall|p: Point| #[trigger] t.has_vertex(p) ==> points.contains(p) || enclosing.has_vertex(p)
}

/// The sphere kept in `t` is one that `circumsphere` can give for the corners
/// of `t` in their order.
pub open spec fn sphere_by<S: Fn(Point, Point, Point, Point) -> (Point, u64)>(
    t: Tetrahedron,
    circumsphere: S,
) -> bool {
    circumsphere.ensures((t.p1, t.p2, t.p3, t.p4), (t.circumcenter, t.circumradius))
}

/// `t` is the enclosing cell, or a cell over given points and corners of the
/// enclosing cell with a sphere from `circumsphere`.
pub open spec fn sound_cell<S: Fn(Point, Point, Point, Point) -> (Point, u64)>(
    t: Tetrahedron,
    points: Seq<Point>,
    enclosing: Tetrahedron,
    circumsphere: S,
) -> bool {
    t == enclosing || (drawn_from(t, points, enclosing) && sphere_by(t, circumsphere))
}

/// As far as `distance` tells, none of the points from index `from` up to
/// index `to` lies in or on the sphere of `t`.
pub open spec fn clear_between<D: Fn(Point, Point) -> u64>(
    t: Tetrahedron,
    points: Seq<Point>,
    from: int,
    to: int,
    distance: D,
) -> bool {
    forall|k: int| from <= k < to ==> t.holds_by(#[trigger] points[k], false, distance)
}

/// `t` is the enclosing cell and clear of the first `m` points, or it was
/// built over one of them as its fourth corner and is clear of those that
/// came after that one, up to the `m`-th.
pub open spec fn settled<D: Fn(Point, Point) -> u64>(
    t: Tetrahedron,
    points: Seq<Point>,
    enclosing: Tetrahedron,
    m: int,
    distance: D,
) -> bool {
    ||| t == enclosing && clear_between(t, points, 0, m, distance)
    ||| exists|b: int|
        0 <= b < m && t.p4 == #[trigger] points[b] && clear_between(t, points, b + 1, m, distance)
}

/// What holds of every cell that a construction hands out.
///
/// Its corners are given points or corners of the enclosing cell, and
/// `difference` could find none of them equal to a corner of the enclosing
/// cell. Unless no point was inserted, its sphere centre is finite. It is the
/// enclosing cell and clear of all points, or it was built over a given point
/// as its fourth corner, with a sphere that `circumsphere` can give for its
/// corners and none of the points after that one in or on its sphere, as far
/// as `distance` tells. Where `difference` finds the corners of the enclosing
/// cell equal to themselves, the cell shares no corner with the enclosing
/// cell and all its corners are given points.
pub open spec fn produced<
    F: Fn(u64, u64) -> u64,
    D: Fn(Point, Point) -> u64,
    S: Fn(Point, Point, Point, Point) -> (Point, u64),
>(
    t: Tetrahedron,
    points: Seq<Point>,
    enclosing: Tetrahedron,
    difference: F,
    distance: D,
    circumsphere: S,
) -> bool {
    &&& drawn_from(t, points, enclosing)
    &&& touches_by(t, enclosing, false, difference)
    &&& points.len() > 0 ==> t.well_formed()
    &&& settled(t, points, enclosing, points.len() as int, distance)
    &&& t != enclosing ==> sphere_by(t, circumsphere)
    &&& corners_self_equal(enclosing, difference) ==> {
        &&& !touches(t, enclosing)
        &&& points.contains(t.p1) && points.contains(t.p2) && points.contains(t.p3)
            && points.contains(t.p4)
    }
}

/// Tests `point` against the sphere of every cell.
fn judge<D: Fn(Point, Point) -> u64>(
    cells: &Vec<Tetrahedron>,
    point: Point,
    distance: &D,
) -> (bad: Vec<bool>)
    requires
        forall|a: Point, b: Point| distance.requires((a, b)),
    ensures
        judged_by(cells@, point, bad@, *distance),
{
    let mut bad: Vec<bool> = Vec::new();
    let mut i: usize = 0;
    while i < cells.len()
        invariant
            i <= cells.len(),
            bad.len() == i,
            forall|a: Point, b: Point| distance.requires((a, b)),
            forall|k: int| 0 <= k < i ==> cells@[k].holds_by(point, #[trigger] bad@[k], *distance),
        decreases cells.len() - i,
    {
        let verdict = cells[i].has_point_circumcircle(&point, distance);
        bad.push(verdict);
        i += 1;
    }
    bad
}

/// Asks `circumsphere` for the sphere of the cell over every hole face.
fn measure<S: Fn(Point, Point, Point, Point) -> (Point, u64)>(
    hole: &Vec<Face>,
    point: Point,
    circumsphere: &S,
) -> (spheres: Vec<(Point, u64)>)
    requires
        forall|a: Point, b: Point, c: Point, d: Point| circumsphere.requires((a, b, c, d)),
    ensures
        measured_by(hole@, point, spheres@, *circumsphere),
{
    let mut spheres: Vec<(Point, u64)> = Vec::new();
    let mut j: usize = 0;
    while j < hole.len()
        invariant
            j <= hole.len(),
            spheres.len() == j,
            forall|a: Point, b: Point, c: Point, d: Point| circumsphere.requires((a, b, c, d)),
            forall|k: int|
                0 <= k < j ==> circumsphere.ensures(
                    (hole@[k].p1, hole@[k].p2, hole@[k].p3, point),
                    #[trigger] spheres@[k],
                ),
        decreases hole.len() - j,
    {
        let face = hole[j];
        let sphere = circumsphere(face.p1, face.p2, face.p3, point);
        spheres.push(sphere);
        j += 1;
    }
    spheres
}

/// Inserts one point: the cells whose sphere holds the point are carved out, the
/// cavity is closed with cells towards `point` whose spheres `circumsphere`
/// gives, and cells with a sphere centre that is not normal are dropped.
pub fn insert_point<
    D: Fn(Point, Point) -> u64,
    S: Fn(Point, Point, Point, Point) -> (Point, u64),
>(cells: &mut Vec<Tetrahedron>, point: Point, distance: &D, circumsphere: &S)
    requires
        forall|a: Point, b: Point| distance.requires((a, b)),
        forall|a: Point, b: Point, c: Point, d: Point| circumsphere.requires((a, b, c, d)),
    ensures
        insertion(old(cells)@, point, final(cells)@, *distance, *circumsphere),
{
    let ghost before = cells@;
    let bad = judge(cells, point, distance);
    let hole = carve(cells, &bad);
    let spheres = measure(&hole, point, circumsphere);
    fill(cells, &hole, point, &spheres);
    assert(cells@ == after_insertion(before, bad@, point, spheres@));
}

/// Builds the tetrahedralization of `points` inside `enclosing`, a cell that
/// contains them all, inserting the points in their order. `difference(a, b)`
/// gives `a - b`; `distance(a, b)` gives the squared distance between two
/// points; `circumsphere(a, b, c, d)` gives the centre and squared radius of
/// the sphere through four corners. Cells that still hold a corner of
/// `enclosing` at the end, within the tolerance, are left out.
///
/// What comes back is the outcome of the insertions as the arithmetic decided
/// them. The sphere of each cell is free of the points inserted after the
/// cell was built; that it is free of the earlier ones too holds in exact
/// geometry and is not promised here. Points in one plane, or too few of
/// them, give few cells or none.
pub fn delaunay<
    F: Fn(u64, u64) -> u64,
    D: Fn(Point, Point) -> u64,
    S: Fn(Point, Point, Point, Point) -> (Point, u64),
>(
    points: &[Point],
    enclosing: Tetrahedron,
    difference: F,
    distance: D,
    circumsphere: S,
) -> (result: Vec<Tetrahedron>)
    requires
        forall|a: u64, b: u64| difference.requires((a, b)),
        forall|a: Point, b: Point| distance.requires((a, b)),
        forall|a: Point, b: Point, c: Point, d: Point| circumsphere.requires((a, b, c, d)),
    ensures
        exists|stages: Seq<Seq<Tetrahedron>>, touching: Seq<bool>|
            {
                &&& construction(points@, enclosing, stages, distance, circumsphere)
                &&& #[trigger] stripped_by(stages.last(), enclosing, touching, difference)
                &&& result@ == survivors(stages.last(), touching)
            },
        forall|i: int|
            0 <= i < result.len() ==> produced(
                #[trigger] result@[i],
                points@,
                enclosing,
                difference,
                distance,
                circumsphere,
            ),
        points@.len() == 0 && enclosing.p1.self_equal(difference) ==> result@.len() == 0,
{
    let mut cells: Vec<Tetrahedron> = Vec::new();
    cells.push(enclosing);
    let ghost mut stages: Seq<Seq<Tetrahedron>> = seq![cells@];
    assert(cells@ =~= seq![enclosing]);
    let mut i: usize = 0;
    while i < points.len()
        invariant
            i <= points.len(),
            stages.len() == i + 1,
            stages[0] == seq![enclosing],
            stages.last() == cells@,
            forall|k: int|
                #![trigger stages[k]]
                0 <= k < i ==> insertion(
                    stages[k],
                    points@[k],
                    stages[k + 1],
                    distance,
                    circumsphere,
                ),
            forall|a: Point, b: Point| distance.requires((a, b)),
            forall|a: Point, b: Point, c: Point, d: Point| circumsphere.requires((a, b, c, d)),
        decreases points.len() - i,
    {
        insert_point(&mut cells, points[i], &distance, &circumsphere);
        proof {
            let earlier = stages;
            stages = stages.push(cells@);
            assert forall|k: int|
                #![trigger stages[k]]
                0 <= k < i + 1 implies insertion(
                stages[k],
                points@[k],
                stages[k + 1],
                distance,
                circumsphere,
            ) by {
                if k < i {
                    assert(stages[k] == earlier[k]);
                    assert(stages[k + 1] == earlier[k + 1]);
                }
            }
        }
        i += 1;
    }
    let result = discard_touching(&cells, &enclosing, &difference);
    proof {
        let touching = choose|touching: Seq<bool>| #[trigger]
            stripped_by(cells@, enclosing, touching, difference) && result@ == survivors(
                cells@,
                touching,
            );
        assert(construction(points@, enclosing, stages, distance, circumsphere));
        lemma_construction_result(
            points@,
            enclosing,
            stages,
            touching,
            difference,
            distance,
            circumsphere,
        );
        if points@.len() == 0 && enclosing.p1.self_equal(difference) {
            assert(touches_by(cells@[0], enclosing, touching[0], difference));
            lemma_touches_itself(enclosing, touching[0], difference);
            assert(survivors(cells@.drop_last(), touching) =~= Seq::<Tetrahedron>::empty());
        }
    }
    result
}

/// An insertion keeps every cell sound, and leaves only cells whose sphere
/// centre is normal.
pub proof fn lemma_insertion_sound<
    D: Fn(Point, Point) -> u64,
    S: Fn(Point, Point, Point, Point) -> (Point, u64),
>(
    before: Seq<Tetrahedron>,
    point: Point,
    after: Seq<Tetrahedron>,
    points: Seq<Point>,
    enclosing: Tetrahedron,
    distance: D,
    circumsphere: S,
)
    requires
        insertion(before, point, after, distance, circumsphere),
        points.contains(point),
        forall|i: int|
            0 <= i < before.len() ==> sound_cell(#[trigger] before[i], points, enclosing, circumsphere),
    ensures
        forall|i: int|
            0 <= i < after.len() ==> sound_cell(#[trigger] after[i], points, enclosing, circumsphere),
        forall|i: int| 0 <= i < after.len() ==> (#[trigger] after[i]).well_formed(),
{
    let (bad, spheres) = choose|bad: Seq<bool>, spheres: Seq<(Point, u64)>|
        {
            &&& judged_by(before, point, bad, distance)
            &&& measured_by(hole_boundary(before, bad), point, spheres, circumsphere)
            &&& after == #[trigger] after_insertion(before, bad, point, spheres)
        };
    let hole = hole_boundary(before, bad);
    let kept = survivors(before, bad);
    let fresh = new_cells(hole, point, spheres);
    let all = kept + fresh;
    let pred = |t: Tetrahedron| t.well_formed();
    assert forall|i: int| 0 <= i < after.len() implies sound_cell(
        #[trigger] after[i],
        points,
        enclosing,
        circumsphere,
    ) && after[i].well_formed() by {
        let t = after[i];
        all.lemma_filter_pred(pred, i);
        assert(all.filter(pred).contains(t));
        all.lemma_filter_contains_rev(pred, t);
        let a = choose|a: int| 0 <= a < all.len() && all[a] == t;
        if a < kept.len() {
            assert(kept[a] == t);
            lemma_survivors_cleared(before, bad, t);
            let c = choose|c: int| 0 <= c < before.len() && before[c] == t && !flagged(bad, c);
            assert(sound_cell(before[c], points, enclosing, circumsphere));
        } else {
            let j = a - kept.len();
            assert(fresh[j] == t);
            let f = hole[j];
            lemma_toggle_all_source(Seq::empty(), bad_faces(before, bad), j);
            assert(bad_faces(before, bad).contains(f));
            lemma_bad_faces_source(before, bad, f);
            let c = choose|c: int|
                0 <= c < before.len() && flagged(bad, c) && (#[trigger] before[c]).face_seq().contains(
                    f,
                );
            let cell = before[c];
            let m = choose|m: int| 0 <= m < cell.face_seq().len() && cell.face_seq()[m] == f;
            assert(cell.has_vertex(f.p1) && cell.has_vertex(f.p2) && cell.has_vertex(f.p3));
            assert(sound_cell(cell, points, enclosing, circumsphere));
            assert(sphere_by(t, circumsphere));
            assert(drawn_from(t, points, enclosing)) by {
                assert forall|p: Point| #[trigger] t.has_vertex(p) implies points.contains(p)
                    || enclosing.has_vertex(p) by {
                    if p != point {
                        assert(cell.has_vertex(p));
                    }
                }
            }
        }
    }
}

/// Every cell that is there after an insertion either was built in it, over
/// the inserted point, or was there before and some distance that `distance`
/// can give puts the point outside its sphere.
pub proof fn lemma_insertion_spares<
    D: Fn(Point, Point) -> u64,
    S: Fn(Point, Point, Point, Point) -> (Point, u64),
>(
    before: Seq<Tetrahedron>,
    point: Point,
    after: Seq<Tetrahedron>,
    distance: D,
    circumsphere: S,
)
    requires
        insertion(before, point, after, distance, circumsphere),
    ensures
        forall|i: int|
            0 <= i < after.len() ==> (#[trigger] after[i]).p4 == point || (before.contains(after[i])
                && after[i].holds_by(point, false, distance)),
{
    let (bad, spheres) = choose|bad: Seq<bool>, spheres: Seq<(Point, u64)>|
        {
            &&& judged_by(before, point, bad, distance)
            &&& measured_by(hole_boundary(before, bad), point, spheres, circumsphere)
            &&& after == #[trigger] after_insertion(before, bad, point, spheres)
        };
    let kept = survivors(before, bad);
    let fresh = new_cells(hole_boundary(before, bad), point, spheres);
    let all = kept + fresh;
    let pred = |t: Tetrahedron| t.well_formed();
    assert forall|i: int| 0 <= i < after.len() implies (#[trigger] after[i]).p4 == point || (
    before.contains(after[i]) && after[i].holds_by(point, false, distance)) by {
        let t = after[i];
        assert(all.filter(pred).contains(t));
        all.lemma_filter_contains_rev(pred, t);
        let a = choose|a: int| 0 <= a < all.len() && all[a] == t;
        if a < kept.len() {
            assert(kept[a] == t);
            lemma_survivors_cleared(before, bad, t);
            let c = choose|c: int| 0 <= c < before.len() && before[c] == t && !flagged(bad, c);
            assert(before[c].holds_by(point, bad[c], distance));
        } else {
            assert(fresh[a - kept.len()] == t);
        }
    }
}

/// Every stage of a construction holds sound cells only.
pub proof fn lemma_construction_sound<
    D: Fn(Point, Point) -> u64,
    S: Fn(Point, Point, Point, Point) -> (Point, u64),
>(
    points: Seq<Point>,
    enclosing: Tetrahedron,
    stages: Seq<Seq<Tetrahedron>>,
    distance: D,
    circumsphere: S,
    k: int,
)
    requires
        construction(points, enclosing, stages, distance, circumsphere),
        0 <= k <= points.len(),
    ensures
        forall|i: int|
            0 <= i < stages[k].len() ==> sound_cell(
                #[trigger] stages[k][i],
                points,
                enclosing,
                circumsphere,
            ),
        k > 0 ==> forall|i: int| 0 <= i < stages[k].len() ==> (#[trigger] stages[k][i]).well_formed(),
    decreases k,
{
    if k > 0 {
        lemma_construction_sound(points, enclosing, stages, distance, circumsphere, k - 1);
        let earlier = stages[k - 1];
        assert(insertion(earlier, points[k - 1], stages[k - 1 + 1], distance, circumsphere));
        lemma_insertion_sound(
            earlier,
            points[k - 1],
            stages[k],
            points,
            enclosing,
            distance,
            circumsphere,
        );
    }
}

/// Every cell of a stage is settled with respect to the points inserted so
/// far: no point that came after the cell was built lies in or on its sphere.
pub proof fn lemma_construction_settled<
    D: Fn(Point, Point) -> u64,
    S: Fn(Point, Point, Point, Point) -> (Point, u64),
>(
    points: Seq<Point>,
    enclosing: Tetrahedron,
    stages: Seq<Seq<Tetrahedron>>,
    distance: D,
    circumsphere: S,
    m: int,
)
    requires
        construction(points, enclosing, stages, distance, circumsphere),
        0 <= m <= points.len(),
    ensures
        forall|i: int|
            0 <= i < stages[m].len() ==> settled(
                #[trigger] stages[m][i],
                points,
                enclosing,
                m,
                distance,
            ),
    decreases m,
{
    if m > 0 {
        lemma_construction_settled(points, enclosing, stages, distance, circumsphere, m - 1);
        let before = stages[m - 1];
        let after = stages[m];
        assert(insertion(before, points[m - 1], stages[m - 1 + 1], distance, circumsphere));
        lemma_insertion_spares(before, points[m - 1], after, distance, circumsphere);
        assert forall|i: int| 0 <= i < after.len() implies settled(
            #[trigger] after[i],
            points,
            enclosing,
            m,
            distance,
        ) by {
            let t = after[i];
            if t.p4 == points[m - 1] {
                assert(clear_between(t, points, m - 1 + 1, m, distance));
            } else {
                let c = choose|c: int| 0 <= c < before.len() && before[c] == t;
                assert(settled(before[c], points, enclosing, m - 1, distance));
                if t == enclosing && clear_between(t, points, 0, m - 1, distance) {
                    assert(clear_between(t, points, 0, m, distance));
                } else {
                    let b = choose|b: int|
                        0 <= b < m - 1 && t.p4 == #[trigger] points[b] && clear_between(
                            t,
                            points,
                            b + 1,
                            m - 1,
                            distance,
                        );
                    assert(clear_between(t, points, b + 1, m, distance));
                }
            }
        }
    }
}

/// A point that `difference` finds equal to itself, and that was not found
/// among the corners of a cell, is none of them pattern for pattern.
pub proof fn lemma_not_found<F: Fn(u64, u64) -> u64>(t: Tetrahedron, point: Point, difference: F)
    requires
        t.has_point_by(point, false, difference),
        point.self_equal(difference),
    ensures
        !t.has_vertex(point),
{
}

/// A cell that was found not to touch the enclosing cell shares no corner
/// with it, where `difference` finds the corners of the enclosing cell equal
/// to themselves.
pub proof fn lemma_not_touching<F: Fn(u64, u64) -> u64>(
    t: Tetrahedron,
    enclosing: Tetrahedron,
    difference: F,
)
    requires
        touches_by(t, enclosing, false, difference),
        corners_self_equal(enclosing, difference),
    ensures
        !touches(t, enclosing),
{
    lemma_not_found(t, enclosing.p1, difference);
    lemma_not_found(t, enclosing.p2, difference);
    lemma_not_found(t, enclosing.p3, difference);
    lemma_not_found(t, enclosing.p4, difference);
}

/// A cell whose first corner `difference` finds equal to itself touches
/// itself.
pub proof fn lemma_touches_itself<F: Fn(u64, u64) -> u64>(
    t: Tetrahedron,
    touching: bool,
    difference: F,
)
    requires
        touches_by(t, t, touching, difference),
        t.p1.self_equal(difference),
    ensures
        touching,
{
}

/// The cells left of the last stage of a construction, once those found
/// touching the enclosing cell are gone, are all `produced`.
pub proof fn lemma_construction_result<
    F: Fn(u64, u64) -> u64,
    D: Fn(Point, Point) -> u64,
    S: Fn(Point, Point, Point, Point) -> (Point, u64),
>(
    points: Seq<Point>,
    enclosing: Tetrahedron,
    stages: Seq<Seq<Tetrahedron>>,
    touching: Seq<bool>,
    difference: F,
    distance: D,
    circumsphere: S,
)
    requires
        construction(points, enclosing, stages, distance, circumsphere),
        stripped_by(stages.last(), enclosing, touching, difference),
    ensures
        forall|i: int|
            0 <= i < survivors(stages.last(), touching).len() ==> produced(
                #[trigger] survivors(stages.last(), touching)[i],
                points,
                enclosing,
                difference,
                distance,
                circumsphere,
            ),
{
    let last = stages.last();
    let result = survivors(last, touching);
    lemma_construction_sound(
        points,
        enclosing,
        stages,
        distance,
        circumsphere,
        points.len() as int,
    );
    lemma_construction_settled(
        points,
        enclosing,
        stages,
        distance,
        circumsphere,
        points.len() as int,
    );
    assert forall|i: int| 0 <= i < result.len() implies produced(
        #[trigger] result[i],
        points,
        enclosing,
        difference,
        distance,
        circumsphere,
    ) by {
        let t = result[i];
        assert(result.contains(t));
        lemma_survivors_cleared(last, touching, t);
        let c = choose|c: int| 0 <= c < last.len() && last[c] == t && !flagged(touching, c);
        assert(touches_by(last[c], enclosing, touching[c], difference));
        assert(sound_cell(last[c], points, enclosing, circumsphere));
        assert(settled(last[c], points, enclosing, points.len() as int, distance));
        assert(drawn_from(t, points, enclosing));
        if corners_self_equal(enclosing, difference) {
            lemma_not_touching(t, enclosing, difference);
            assert(t.has_vertex(t.p1) && t.has_vertex(t.p2) && t.has_vertex(t.p3) && t.has_vertex(
                t.p4,
            ));
        }
    }
}

/// `distance` is a function: it can give one result only for the same two
/// points.
pub open spec fn single_distance<D: Fn(Point, Point) -> u64>(distance: D) -> bool {
    forall|a: Point, b: Point, r1: u64, r2: u64|
        #[trigger] distance.ensures((a, b), r1) && #[trigger] distance.ensures((a, b), r2) ==> r1
            == r2
}

/// `circumsphere` is a function: it can give one result only for the same
/// four points.
pub open spec fn single_sphere<S: Fn(Point, Point, Point, Point) -> (Point, u64)>(
    circumsphere: S,
) -> bool {
    forall|a: Point, b: Point, c: Point, d: Point, r1: (Point, u64), r2: (Point, u64)|
        #[trigger] circumsphere.ensures((a, b, c, d), r1) && #[trigger] circumsphere.ensures(
            (a, b, c, d),
            r2,
        ) ==> r1 == r2
}

/// With arithmetic that is a function, an insertion has one outcome.
pub proof fn lemma_insertion_unique<
    D: Fn(Point, Point) -> u64,
    S: Fn(Point, Point, Point, Point) -> (Point, u64),
>(
    before: Seq<Tetrahedron>,
    point: Point,
    first: Seq<Tetrahedron>,
    second: Seq<Tetrahedron>,
    distance: D,
    circumsphere: S,
)
    requires
        single_distance(distance),
        single_sphere(circumsphere),
        insertion(before, point, first, distance, circumsphere),
        insertion(before, point, second, distance, circumsphere),
    ensures
        first == second,
{
    let (bad1, spheres1) = choose|bad: Seq<bool>, spheres: Seq<(Point, u64)>|
        {
            &&& judged_by(before, point, bad, distance)
            &&& measured_by(hole_boundary(before, bad), point, spheres, circumsphere)
            &&& first == #[trigger] after_insertion(before, bad, point, spheres)
        };
    let (bad2, spheres2) = choose|bad: Seq<bool>, spheres: Seq<(Point, u64)>|
        {
            &&& judged_by(before, point, bad, distance)
            &&& measured_by(hole_boundary(before, bad), point, spheres, circumsphere)
            &&& second == #[trigger] after_insertion(before, bad, point, spheres)
        };
    assert forall|i: int| 0 <= i < before.len() implies bad1[i] == bad2[i] by {
        assert(before[i].holds_by(point, bad1[i], distance));
        assert(before[i].holds_by(point, bad2[i], distance));
        let d1 = choose|d: u64| #[trigger]
            distance.ensures((point, before[i].circumcenter), d) && bad1[i] == at_most(
                d,
                before[i].circumradius,
            );
        let d2 = choose|d: u64| #[trigger]
            distance.ensures((point, before[i].circumcenter), d) && bad2[i] == at_most(
                d,
                before[i].circumradius,
            );
        assert(d1 == d2);
    }
    assert(bad1 =~= bad2);
    let hole = hole_boundary(before, bad1);
    assert forall|j: int| 0 <= j < hole.len() implies spheres1[j] == spheres2[j] by {
        assert(circumsphere.ensures((hole[j].p1, hole[j].p2, hole[j].p3, point), spheres1[j]));
        assert(circumsphere.ensures((hole[j].p1, hole[j].p2, hole[j].p3, point), spheres2[j]));
    }
    assert(spheres1 =~= spheres2);
}

proof fn lemma_construction_agrees<
    D: Fn(Point, Point) -> u64,
    S: Fn(Point, Point, Point, Point) -> (Point, u64),
>(
    points: Seq<Point>,
    enclosing: Tetrahedron,
    first: Seq<Seq<Tetrahedron>>,
    second: Seq<Seq<Tetrahedron>>,
    distance: D,
    circumsphere: S,
    k: int,
)
    requires
        single_distance(distance),
        single_sphere(circumsphere),
        construction(points, enclosing, first, distance, circumsphere),
        construction(points, enclosing, second, distance, circumsphere),
        0 <= k <= points.len(),
    ensures
        first[k] == second[k],
    decreases k,
{
    if k > 0 {
        lemma_construction_agrees(points, enclosing, first, second, distance, circumsphere, k - 1);
        assert(insertion(first[k - 1], points[k - 1], first[k - 1 + 1], distance, circumsphere));
        assert(insertion(second[k - 1], points[k - 1], second[k - 1 + 1], distance, circumsphere));
        lemma_insertion_unique(
            first[k - 1],
            points[k - 1],
            first[k],
            second[k],
            distance,
            circumsphere,
        );
    }
}

/// With arithmetic that is a function, a construction has one course: any two
/// records of it agree stage by stage.
pub proof fn lemma_construction_unique<
    D: Fn(Point, Point) -> u64,
    S: Fn(Point, Point, Point, Point) -> (Point, u64),
>(
    points: Seq<Point>,
    enclosing: Tetrahedron,
    first: Seq<Seq<Tetrahedron>>,
    second: Seq<Seq<Tetrahedron>>,
    distance: D,
    circumsphere: S,
)
    requires
        single_distance(distance),
        single_sphere(circumsphere),
        construction(points, enclosing, first, distance, circumsphere),
        construction(points, enclosing, second, distance, circumsphere),
    ensures
        first == second,
{
    lemma_construction_agrees(
        points,
        enclosing,
        first,
        second,
        distance,
        circumsphere,
        points.len() as int,
    );
    assert forall|k: int| 0 <= k < first.len() implies first[k] == second[k] by {
        lemma_construction_agrees(points, enclosing, first, second, distance, circumsphere, k);
    }
    assert(first =~= second);
}

/// With a difference that is a function, whether a cell touches the
/// enclosing cell has one verdict.
pub proof fn lemma_touches_unique<F: Fn(u64, u64) -> u64>(
    t: Tetrahedron,
    enclosing: Tetrahedron,
    first: bool,
    second: bool,
    difference: F,
)
    requires
        single_difference(difference),
        touches_by(t, enclosing, first, difference),
        touches_by(t, enclosing, second, difference),
    ensures
        first == second,
{
}

/// With a difference that is a function, the verdicts on which cells touch
/// the enclosing cell are determined, and with them what is handed out of a
/// last stage.
pub proof fn lemma_stripped_unique<F: Fn(u64, u64) -> u64>(
    cells: Seq<Tetrahedron>,
    enclosing: Tetrahedron,
    first: Seq<bool>,
    second: Seq<bool>,
    difference: F,
)
    requires
        single_difference(difference),
        stripped_by(cells, enclosing, first, difference),
        stripped_by(cells, enclosing, second, difference),
    ensures
        first == second,
{
    assert forall|i: int| 0 <= i < cells.len() implies first[i] == second[i] by {
        lemma_touches_unique(cells[i], enclosing, first[i], second[i], difference);
    }
    assert(first =~= second);
}

} // verus!

use vstd::prelude::*;
use crate::face::Face;
use crate::hole::{
    distinct_faces, has_face, lemma_toggle_all_concat, lemma_toggle_all_parity, occurrences, toggle,
    toggle_all, toggle_face,
};
use crate::point::Point;
use crate::tetrahedron::Tetrahedron;

verus! {

/// The flag at `i` is there and set. A missing flag counts as not set.
pub open spec fn flagged(bad: Seq<bool>, i: int) -> bool {
    0 <= i < bad.len() && bad[i]
}

/// The faces of the flagged cells, cell after cell.
pub open spec fn bad_faces(cells: Seq<Tetrahedron>, bad: Seq<bool>) -> Seq<Face>
    decreases cells.len(),
{
    if cells.len() == 0 {
        Seq::empty()
    } else {
        let rest = bad_faces(cells.drop_last(), bad);
        if flagged(bad, cells.len() - 1) {
            rest + cells.last().face_seq()
        } else {
            rest
        }
    }
}

/// The boundary of the cavity that the flagged cells leave: their faces with
/// every pair of equal faces cancelled.
pub open spec fn hole_boundary(cells: Seq<Tetrahedron>, bad: Seq<bool>) -> Seq<Face> {
    toggle_all(Seq::empty(), bad_faces(cells, bad))
}

/// The cells that are not flagged, in their order.
pub open spec fn survivors(cells: Seq<Tetrahedron>, bad: Seq<bool>) -> Seq<Tetrahedron>
    decreases cells.len(),
{
    if cells.len() == 0 {
        Seq::empty()
    } else {
        let rest = survivors(cells.drop_last(), bad);
        if flagged(bad, cells.len() - 1) {
            rest
        } else {
            rest.push(cells.last())
        }
    }
}

/// One cell over each hole face, with `point` as the fourth corner and the
/// sphere of the same index. Faces and spheres are paired as far as both go.
pub open spec fn new_cells(hole: Seq<Face>, point: Point, spheres: Seq<(Point, u64)>) -> Seq<
    Tetrahedron,
> {
    Seq::new(
        if hole.len() <= spheres.len() {
            hole.len()
        } else {
            spheres.len()
        },
        |j: int|
            Tetrahedron {
                p1: hole[j].p1,
                p2: hole[j].p2,
                p3: hole[j].p3,
                p4: point,
                circumcenter: spheres[j].0,
                circumradius: spheres[j].1,
            },
    )
}

/// The cells whose sphere centre is a finite point, in their order.
pub open spec fn without_degenerate(cells: Seq<Tetrahedron>) -> Seq<Tetrahedron> {
    cells.filter(|t: Tetrahedron| t.well_formed())
}

/// The cell list after one insertion, given the verdict on each cell and the
/// sphere of each new cell.
pub open spec fn after_insertion(
    cells: Seq<Tetrahedron>,
    bad: Seq<bool>,
    point: Point,
    spheres: Seq<(Point, u64)>,
) -> Seq<Tetrahedron> {
    without_degenerate(
        survivors(cells, bad) + new_cells(hole_boundary(cells, bad), point, spheres),
    )
}

proof fn lemma_toggle_cell(h: Seq<Face>, t: Tetrahedron)
    ensures
        toggle_all(h, t.face_seq()) == toggle(
            toggle(toggle(toggle(h, t.face_seq()[0]), t.face_seq()[1]), t.face_seq()[2]),
            t.face_seq()[3],
        ),
{
    let f = t.face_seq();
    let f3 = f.drop_last();
    let f2 = f3.drop_last();
    let f1 = f2.drop_last();
    assert(toggle_all(h, f1.drop_last()) == h);
    assert(toggle_all(h, f1) == toggle(h, f[0]));
    assert(toggle_all(h, f2) == toggle(toggle_all(h, f1), f[1]));
    assert(toggle_all(h, f3) == toggle(toggle_all(h, f2), f[2]));
    assert(toggle_all(h, f) == toggle(toggle_all(h, f3), f[3]));
}

/// Removes the flagged cells from `cells` and returns the boundary of the
/// cavity they leave. `bad[i]` is the verdict on `cells[i]`.
pub fn carve(cells: &mut Vec<Tetrahedron>, bad: &Vec<bool>) -> (hole: Vec<Face>)
    ensures
        hole@ == hole_boundary(old(cells)@, bad@),
        final(cells)@ == survivors(old(cells)@, bad@),
{
    let mut hole: Vec<Face> = Vec::new();
    let mut kept: Vec<Tetrahedron> = Vec::new();
    let mut i: usize = 0;
    while i < cells.len()
        invariant
            i <= cells.len(),
            hole@ == hole_boundary(cells@.take(i as int), bad@),
            kept@ == survivors(cells@.take(i as int), bad@),
        decreases cells.len() - i,
    {
        let cell = cells[i];
        proof {
            let next = cells@.take(i + 1);
            assert(next.drop_last() =~= cells@.take(i as int));
            lemma_toggle_all_concat(
                Seq::empty(),
                bad_faces(cells@.take(i as int), bad@),
                cell.face_seq(),
            );
            lemma_toggle_cell(hole@, cell);
        }
        if i < bad.len() && bad[i] {
            let fs = cell.faces();
            toggle_face(&mut hole, fs[0]);
            toggle_face(&mut hole, fs[1]);
            toggle_face(&mut hole, fs[2]);
            toggle_face(&mut hole, fs[3]);
        } else {
            kept.push(cell);
        }
        i += 1;
    }
    assert(cells@.take(i as int) =~= cells@);
    *cells = kept;
    hole
}

/// Keeps the cells that are not flagged. `flags[i]` is the flag of
/// `cells[i]`.
pub fn discard_flagged(cells: &Vec<Tetrahedron>, flags: &Vec<bool>) -> (kept: Vec<Tetrahedron>)
    ensures
        kept@ == survivors(cells@, flags@),
{
    let mut kept: Vec<Tetrahedron> = Vec::new();
    let mut i: usize = 0;
    while i < cells.len()
        invariant
            i <= cells.len(),
            kept@ == survivors(cells@.take(i as int), flags@),
        decreases cells.len() - i,
    {
        assert(cells@.take(i + 1).drop_last() =~= cells@.take(i as int));
        if !(i < flags.len() && flags[i]) {
            kept.push(cells[i]);
        }
        i += 1;
    }
    assert(cells@.take(i as int) =~= cells@);
    kept
}

/// Keeps the cells whose sphere centre is a finite point.
pub fn discard_degenerate(cells: &Vec<Tetrahedron>) -> (kept: Vec<Tetrahedron>)
    ensures
        kept@ == without_degenerate(cells@),
{
    let mut kept: Vec<Tetrahedron> = Vec::new();
    let mut i: usize = 0;
    proof {
        reveal(Seq::filter);
    }
    while i < cells.len()
        invariant
            i <= cells.len(),
            kept@ == without_degenerate(cells@.take(i as int)),
        decreases cells.len() - i,
    {
        let cell = cells[i];
        proof {
            reveal(Seq::filter);
            let next = cells@.take(i + 1);
            assert(next.drop_last() =~= cells@.take(i as int));
        }
        if cell.circumcenter.is_finite() {
            kept.push(cell);
        }
        i += 1;
    }
    assert(cells@.take(i as int) =~= cells@);
    kept
}

/// Closes the cavity: appends one cell over each hole face with `point` as the
/// fourth corner and `spheres[j]` as the sphere of the cell over `hole[j]`,
/// then drops every cell, old or new, whose sphere centre is not finite.
pub fn fill(
    cells: &mut Vec<Tetrahedron>,
    hole: &Vec<Face>,
    point: Point,
    spheres: &Vec<(Point, u64)>,
)
    ensures
        final(cells)@ == without_degenerate(old(cells)@ + new_cells(hole@, point, spheres@)),
{
    let ghost before = cells@;
    let mut j: usize = 0;
    while j < hole.len() && j < spheres.len()
        invariant
            j <= hole.len(),
            j <= spheres.len(),
            cells@ == before + new_cells(hole@, point, spheres@).take(j as int),
        decreases hole.len() - j,
    {
        let face = hole[j];
        let sphere = spheres[j];
        cells.push(Tetrahedron::new(face.p1, face.p2, face.p3, point, sphere.0, sphere.1));
        j += 1;
    }
    assert(new_cells(hole@, point, spheres@).take(j as int) =~= new_cells(hole@, point, spheres@));
    let kept = discard_degenerate(cells);
    *cells = kept;
}

/// The hole boundary holds no face twice, and it holds a face exactly when
/// the face occurs an odd number of times among the faces of the flagged
/// cells: a face between two flagged cells is gone, a face of one flagged
/// cell alone stays.
pub proof fn lemma_hole_boundary(cells: Seq<Tetrahedron>, bad: Seq<bool>, f: Face)
    ensures
        distinct_faces(hole_boundary(cells, bad)),
        has_face(hole_boundary(cells, bad), f) <==> occurrences(bad_faces(cells, bad), f) % 2 == 1,
{
    lemma_toggle_all_parity(Seq::empty(), bad_faces(cells, bad), f);
}

/// A face among the faces of the flagged cells is a face of a flagged cell.
pub proof fn lemma_bad_faces_source(cells: Seq<Tetrahedron>, bad: Seq<bool>, f: Face)
    requires
        bad_faces(cells, bad).contains(f),
    ensures
        exists|c: int|
            0 <= c < cells.len() && flagged(bad, c) && (#[trigger] cells[c]).face_seq().contains(f),
    decreases cells.len(),
{
    if cells.len() > 0 {
        let rest = bad_faces(cells.drop_last(), bad);
        let i = choose|i: int| 0 <= i < bad_faces(cells, bad).len() && bad_faces(cells, bad)[i] == f;
        if i < rest.len() {
            assert(rest[i] == f);
            lemma_bad_faces_source(cells.drop_last(), bad, f);
            let c = choose|c: int|
                0 <= c < cells.drop_last().len() && flagged(bad, c) && (
                #[trigger] cells.drop_last()[c]).face_seq().contains(f);
            assert(cells[c] == cells.drop_last()[c]);
        } else {
            assert(cells.last().face_seq()[i - rest.len()] == f);
            assert(cells[cells.len() - 1].face_seq().contains(f));
        }
    }
}

/// A surviving cell stands in the list at a place that is not flagged.
pub proof fn lemma_survivors_cleared(cells: Seq<Tetrahedron>, bad: Seq<bool>, t: Tetrahedron)
    requires
        survivors(cells, bad).contains(t),
    ensures
        exists|c: int| 0 <= c < cells.len() && cells[c] == t && !flagged(bad, c),
    decreases cells.len(),
{
    if cells.len() > 0 {
        let rest = survivors(cells.drop_last(), bad);
        let i = choose|i: int| 0 <= i < survivors(cells, bad).len() && survivors(cells, bad)[i] == t;
        if i < rest.len() {
            assert(rest[i] == t);
            lemma_survivors_cleared(cells.drop_last(), bad, t);
            let c = choose|c: int|
                0 <= c < cells.drop_last().len() && cells.drop_last()[c] == t && !flagged(bad, c);
            assert(cells[c] == t);
        } else {
            assert(cells[cells.len() - 1] == t);
        }
    }
}

} // verus!

use vstd::prelude::*;
use crate::edge::Edge;
use crate::face::{same_face, Face};
use crate::hole::{distinct_faces, first_match, has_face, lemma_first_match};
use crate::tetrahedron::Tetrahedron;

verus! {

/// What is known of one face: the first cell that was seen to have it, and the
/// cell seen last among any further ones.
#[derive(Copy, Clone, Debug)]
pub struct Adjacency {
    pub face: Face,
    pub first: Tetrahedron,
    pub second: Option<Tetrahedron>,
}

/// The faces that the entries are about, in the entries' order.
pub open spec fn keys(entries: Seq<Adjacency>) -> Seq<Face> {
    Seq::new(entries.len(), |i: int| entries[i].face)
}

/// The slots of the entry for the face `f`, or `None` when it has no entry.
pub open spec fn entry_of(entries: Seq<Adjacency>, f: Face) -> Option<
    (Tetrahedron, Option<Tetrahedron>),
> {
    let k = first_match(keys(entries), f);
    if k < entries.len() {
        Some((entries[k].first, entries[k].second))
    } else {
        None
    }
}

/// Notes that `cell` has the face `f`: a face that has an entry gets `cell` in
/// its second slot, over whatever was there; a new face gets an entry with
/// `cell` in the first slot and an empty second slot.
pub open spec fn record(entries: Seq<Adjacency>, f: Face, cell: Tetrahedron) -> Seq<Adjacency> {
    let k = first_match(keys(entries), f);
    if k < entries.len() {
        entries.update(
            k,
            Adjacency { face: entries[k].face, first: entries[k].first, second: Some(cell) },
        )
    } else {
        entries.push(Adjacency { face: f, first: cell, second: None })
    }
}

/// The four faces of a cell, each paired with the cell.
pub open spec fn cell_incidences(t: Tetrahedron) -> Seq<(Face, Tetrahedron)> {
    seq![
        (t.face_seq()[0], t),
        (t.face_seq()[1], t),
        (t.face_seq()[2], t),
        (t.face_seq()[3], t),
    ]
}

/// Every face of every cell, paired with its cell, cell after cell.
pub open spec fn incidences(cells: Seq<Tetrahedron>) -> Seq<(Face, Tetrahedron)>
    decreases cells.len(),
{
    if cells.len() == 0 {
        Seq::empty()
    } else {
        incidences(cells.drop_last()) + cell_incidences(cells.last())
    }
}

/// The entries that recording a list of face-cell pairs in order leaves.
pub open spec fn recorded(pairs: Seq<(Face, Tetrahedron)>) -> Seq<Adjacency>
    decreases pairs.len(),
{
    if pairs.len() == 0 {
        Seq::empty()
    } else {
        record(recorded(pairs.drop_last()), pairs.last().0, pairs.last().1)
    }
}

/// The face adjacency of a list of cells.
pub open spec fn adjacency(cells: Seq<Tetrahedron>) -> Seq<Adjacency> {
    recorded(incidences(cells))
}

/// One edge between the two sphere centres of every entry with a second cell,
/// in the entries' order.
pub open spec fn skeleton(entries: Seq<Adjacency>) -> Seq<Edge>
    decreases entries.len(),
{
    if entries.len() == 0 {
        Seq::empty()
    } else {
        let rest = skeleton(entries.drop_last());
        match entries.last().second {
            Some(other) => rest.push(
                Edge { p1: entries.last().first.circumcenter, p2: other.circumcenter },
            ),
            None => rest,
        }
    }
}

/// The entries that have a second cell, in their order.
pub open spec fn internal(entries: Seq<Adjacency>) -> Seq<Adjacency>
    decreases entries.len(),
{
    if entries.len() == 0 {
        Seq::empty()
    } else if entries.last().second is Some {
        internal(entries.drop_last()).push(entries.last())
    } else {
        internal(entries.drop_last())
    }
}

/// How many entries have a second cell.
pub open spec fn internal_count(entries: Seq<Adjacency>) -> nat
    decreases entries.len(),
{
    if entries.len() == 0 {
        0
    } else {
        internal_count(entries.drop_last()) + if entries.last().second is Some {
            1nat
        } else {
            0nat
        }
    }
}

/// Returns the position of the entry for `face`, or the length when the face
/// has none.
pub fn find_entry(entries: &Vec<Adjacency>, face: &Face) -> (k: usize)
    ensures
        k == first_match(keys(entries@), *face),
{
    let mut i: usize = 0;
    while i < entries.len()
        invariant
            i <= entries.len(),
            forall|j: int| 0 <= j < i ==> !same_face(#[trigger] keys(entries@)[j], *face),
        decreases entries.len() - i,
    {
        if entries[i].face == *face {
            proof {
                assert(keys(entries@)[i as int] == entries@[i as int].face);
                lemma_first_match(keys(entries@), *face);
            }
            return i;
        }
        i += 1;
    }
    proof {
        lemma_first_match(keys(entries@), *face);
    }
    i
}

/// Records that `cell` has `face`.
pub fn record_face(entries: &mut Vec<Adjacency>, face: Face, cell: Tetrahedron)
    ensures
        final(entries)@ == record(old(entries)@, face, cell),
{
    let k = find_entry(entries, &face);
    if k < entries.len() {
        let entry = entries[k];
        entries.set(k, Adjacency { face: entry.face, first: entry.first, second: Some(cell) });
    } else {
        entries.push(Adjacency { face, first: cell, second: None });
    }
}

/// Looks a face up: the cells recorded for it, or `None` when it has no
/// entry.
pub fn neighbours(entries: &Vec<Adjacency>, face: &Face) -> (found: Option<
    (Tetrahedron, Option<Tetrahedron>),
>)
    ensures
        found == entry_of(entries@, *face),
{
    let k = find_entry(entries, face);
    if k < entries.len() {
        Some((entries[k].first, entries[k].second))
    } else {
        None
    }
}

proof fn lemma_record_cell(entries: Seq<Adjacency>, pairs: Seq<(Face, Tetrahedron)>, t: Tetrahedron)
    requires
        entries == recorded(pairs),
    ensures
        recorded(pairs + cell_incidences(t)) == record(
            record(
                record(record(entries, t.face_seq()[0], t), t.face_seq()[1], t),
                t.face_seq()[2],
                t,
            ),
            t.face_seq()[3],
            t,
        ),
{
    let c = cell_incidences(t);
    let all4 = pairs + c;
    let all3 = all4.drop_last();
    let all2 = all3.drop_last();
    let all1 = all2.drop_last();
    assert(all1.drop_last() =~= pairs);
    assert(recorded(all1) == record(entries, c[0].0, c[0].1));
    assert(recorded(all3) == record(recorded(all2), c[2].0, c[2].1));
}

/// Maps every face of the given cells to the cells that have it.
pub fn face_adjacency(tetrahedrons: &[Tetrahedron]) -> (entries: Vec<Adjacency>)
    ensures
        entries@ == adjacency(tetrahedrons@),
        distinct_faces(keys(entries@)),
{
    let mut entries: Vec<Adjacency> = Vec::new();
    let mut i: usize = 0;
    while i < tetrahedrons.len()
        invariant
            i <= tetrahedrons.len(),
            entries@ == adjacency(tetrahedrons@.take(i as int)),
        decreases tetrahedrons.len() - i,
    {
        let cell = tetrahedrons[i];
        proof {
            let next = tetrahedrons@.take(i + 1);
            assert(next.drop_last() =~= tetrahedrons@.take(i as int));
            lemma_record_cell(entries@, incidences(tetrahedrons@.take(i as int)), cell);
        }
        let fs = cell.faces();
        record_face(&mut entries, fs[0], cell);
        record_face(&mut entries, fs[1], cell);
        record_face(&mut entries, fs[2], cell);
        record_face(&mut entries, fs[3], cell);
        i += 1;
    }
    proof {
        assert(tetrahedrons@.take(i as int) =~= tetrahedrons@);
        lemma_recorded_keys(incidences(tetrahedrons@));
    }
    entries
}

/// The number of edges in a skeleton is the number of entries with a second
/// cell.
pub proof fn lemma_skeleton_len(entries: Seq<Adjacency>)
    ensures
        skeleton(entries).len() == internal_count(entries),
    decreases entries.len(),
{
    if entries.len() > 0 {
        lemma_skeleton_len(entries.drop_last());
    }
}

/// The edges of a skeleton stand one to one for the entries with a second
/// cell, in their order: each joins the sphere centres of the two cells of
/// its entry.
pub proof fn lemma_skeleton_internal(entries: Seq<Adjacency>)
    ensures
        skeleton(entries).len() == internal(entries).len(),
        internal(entries).len() == internal_count(entries),
        forall|k: int|
            0 <= k < skeleton(entries).len() ==> (#[trigger] internal(entries)[k]).second is Some
                && skeleton(entries)[k] == (Edge {
                p1: internal(entries)[k].first.circumcenter,
                p2: internal(entries)[k].second.unwrap().circumcenter,
            }),
    decreases entries.len(),
{
    if entries.len() > 0 {
        lemma_skeleton_internal(entries.drop_last());
    }
}

/// Connects the sphere centres of every two cells that share a face.
pub fn medial_axis(tetrahedrons: &[Tetrahedron]) -> (edges: Vec<Edge>)
    ensures
        edges@ == skeleton(adjacency(tetrahedrons@)),
        edges.len() == internal_count(adjacency(tetrahedrons@)),
{
    let entries = face_adjacency(tetrahedrons);
    let mut edges: Vec<Edge> = Vec::new();
    let mut i: usize = 0;
    while i < entries.len()
        invariant
            i <= entries.len(),
            edges@ == skeleton(entries@.take(i as int)),
        decreases entries.len() - i,
    {
        let entry = entries[i];
        proof {
            let next = entries@.take(i + 1);
            assert(next.drop_last() =~= entries@.take(i as int));
        }
        match entry.second {
            Some(other) => {
                edges.push(Edge::new(entry.first.circumcenter, other.circumcenter));
            },
            None => {},
        }
        i += 1;
    }
    proof {
        assert(entries@.take(i as int) =~= entries@);
        lemma_skeleton_len(entries@);
    }
    edges
}

/// The faces of a list of face-cell pairs.
pub open spec fn pair_faces(pairs: Seq<(Face, Tetrahedron)>) -> Seq<Face> {
    Seq::new(pairs.len(), |i: int| pairs[i].0)
}

/// The index of the last element of `s` that is the face `f`, or -1 when
/// there is none.
pub open spec fn last_match(s: Seq<Face>, f: Face) -> int
    decreases s.len(),
{
    if s.len() == 0 {
        -1
    } else if same_face(s.last(), f) {
        s.len() - 1
    } else {
        last_match(s.drop_last(), f)
    }
}

/// The entry that a face must have after the pairs were recorded: the cell of
/// its first pair, and the cell of its last pair where that is another pair.
pub open spec fn expected_entry(pairs: Seq<(Face, Tetrahedron)>, f: Face) -> Adjacency {
    let a = first_match(pair_faces(pairs), f);
    let b = last_match(pair_faces(pairs), f);
    Adjacency {
        face: pairs[a].0,
        first: pairs[a].1,
        second: if a == b {
            None
        } else {
            Some(pairs[b].1)
        },
    }
}

/// `last_match` is in range, points at a match unless it is -1, and nothing
/// after it matches.
pub proof fn lemma_last_match(s: Seq<Face>, f: Face)
    ensures
        -1 <= last_match(s, f) < s.len(),
        last_match(s, f) >= 0 ==> same_face(s[last_match(s, f)], f),
        forall|j: int| last_match(s, f) < j < s.len() ==> !same_face(#[trigger] s[j], f),
        has_face(s, f) <==> last_match(s, f) >= 0,
        first_match(s, f) < s.len() ==> first_match(s, f) <= last_match(s, f),
    decreases s.len(),
{
    if s.len() > 0 {
        lemma_last_match(s.drop_last(), f);
        if !same_face(s.last(), f) {
            assert forall|j: int| last_match(s, f) < j < s.len() implies !same_face(
                #[trigger] s[j],
                f,
            ) by {
                if j < s.len() - 1 {
                    assert(s[j] == s.drop_last()[j]);
                }
            }
        }
    }
    if has_face(s, f) {
        let i = choose|i: int| 0 <= i < s.len() && same_face(#[trigger] s[i], f);
        assert(i <= last_match(s, f));
    }
}

/// What recording does, face by face: the keys stay free of repeats, a face
/// has an entry exactly when some pair has it, and that entry is the expected
/// one.
pub proof fn lemma_recorded(pairs: Seq<(Face, Tetrahedron)>, g: Face)
    ensures
        distinct_faces(keys(recorded(pairs))),
        has_face(keys(recorded(pairs)), g) <==> has_face(pair_faces(pairs), g),
        has_face(pair_faces(pairs), g) ==> recorded(pairs)[first_match(keys(recorded(pairs)), g)]
            == expected_entry(pairs, g),
    decreases pairs.len(),
{
    let pf = pair_faces(pairs);
    if pairs.len() > 0 {
        let rest = pairs.drop_last();
        let f = pairs.last().0;
        let kb = keys(recorded(rest));
        let ke = keys(recorded(pairs));
        let rf = pair_faces(rest);
        lemma_recorded(rest, g);
        lemma_first_match(kb, f);
        lemma_first_match(kb, g);
        lemma_last_match(rf, g);
        lemma_first_match(pf, g);
        assert(pf.drop_last() =~= rf);
        if first_match(kb, f) < kb.len() {
            // The face has an entry: its second slot changes, the keys do not.
            assert(ke =~= kb);
        } else {
            // The face is new: its entry comes last.
            assert(ke =~= kb.push(f));
            assert(ke.drop_last() =~= kb);
            if has_face(ke, g) {
                let a = choose|a: int| 0 <= a < ke.len() && same_face(#[trigger] ke[a], g);
                assert(a < kb.len() || same_face(f, g));
            }
        }
        if has_face(rf, g) {
            let a = choose|a: int| 0 <= a < rf.len() && same_face(#[trigger] rf[a], g);
            assert(pf[a] == rf[a]);
        }
        if has_face(pf, g) {
            let a = choose|a: int| 0 <= a < pf.len() && same_face(#[trigger] pf[a], g);
            assert(a < rf.len() || same_face(f, g));
        }
    }
}

/// Recording leaves at most one entry for a face.
pub proof fn lemma_recorded_keys(pairs: Seq<(Face, Tetrahedron)>)
    ensures
        distinct_faces(keys(recorded(pairs))),
{
    lemma_recorded(pairs, arbitrary());
}

/// The pairs of a cell list stand four to a cell: pair `4 * c + m` is face
/// `m` of cell `c`, with that cell.
pub proof fn lemma_incidence_at(cells: Seq<Tetrahedron>, c: int, m: int)
    requires
        0 <= c < cells.len(),
        0 <= m < 4,
    ensures
        incidences(cells).len() == 4 * cells.len(),
        incidences(cells)[4 * c + m] == (cells[c].face_seq()[m], cells[c]),
    decreases cells.len(),
{
    lemma_incidences_len(cells);
    if c < cells.len() - 1 {
        lemma_incidence_at(cells.drop_last(), c, m);
    }
}

/// A cell list has four pairs for each cell.
pub proof fn lemma_incidences_len(cells: Seq<Tetrahedron>)
    ensures
        incidences(cells).len() == 4 * cells.len(),
    decreases cells.len(),
{
    if cells.len() > 0 {
        lemma_incidences_len(cells.drop_last());
    }
}

/// Exactly one of the four faces of `t` is the face `f`.
pub open spec fn has_face_once(t: Tetrahedron, f: Face) -> bool {
    &&& has_face(t.face_seq(), f)
    &&& forall|m: int, n: int|
        0 <= m < n < 4 ==> !(same_face(#[trigger] t.face_seq()[m], f) && same_face(
            #[trigger] t.face_seq()[n],
            f,
        ))
}

/// The entry of a face in the adjacency of `cells`, where `i` is the first
/// cell that has the face and `j` the last one: the entry's first slot holds
/// cell `i`; with `i < j` its second slot holds cell `j`; with `i == j` and
/// the face once in that cell, its second slot is empty.
pub proof fn lemma_adjacency_entry(cells: Seq<Tetrahedron>, f: Face, i: int, j: int)
    requires
        0 <= i <= j < cells.len(),
        has_face(cells[i].face_seq(), f),
        has_face(cells[j].face_seq(), f),
        forall|c: int| 0 <= c < i ==> !has_face(#[trigger] cells[c].face_seq(), f),
        forall|c: int| j < c < cells.len() ==> !has_face(#[trigger] cells[c].face_seq(), f),
    ensures
        entry_of(adjacency(cells), f) is Some,
        entry_of(adjacency(cells), f).unwrap().0 == cells[i],
        i < j ==> entry_of(adjacency(cells), f) == Some((cells[i], Some(cells[j]))),
        i == j && has_face_once(cells[i], f) ==> entry_of(adjacency(cells), f) == Some(
            (cells[i], None::<Tetrahedron>),
        ),
{
    let pairs = incidences(cells);
    let pf = pair_faces(pairs);
    let mi = choose|m: int|
        0 <= m < cells[i].face_seq().len() && same_face(#[trigger] cells[i].face_seq()[m], f);
    let mj = choose|m: int|
        0 <= m < cells[j].face_seq().len() && same_face(#[trigger] cells[j].face_seq()[m], f);
    lemma_incidence_at(cells, i, mi);
    lemma_incidence_at(cells, j, mj);
    assert(pf[4 * i + mi] == cells[i].face_seq()[mi]);
    assert(pf[4 * j + mj] == cells[j].face_seq()[mj]);
    lemma_recorded(pairs, f);
    lemma_first_match(pf, f);
    lemma_last_match(pf, f);
    lemma_first_match(keys(adjacency(cells)), f);
    // The first and the last pair with the face belong to cells `i` and `j`.
    let a = first_match(pf, f);
    let b = last_match(pf, f);
    lemma_incidence_at(cells, a / 4, a % 4);
    lemma_incidence_at(cells, b / 4, b % 4);
    assert(a / 4 == i);
    assert(b / 4 == j);
}

/// A face that no cell has gets no entry.
pub proof fn lemma_adjacency_absent(cells: Seq<Tetrahedron>, f: Face)
    requires
        forall|c: int| 0 <= c < cells.len() ==> !has_face(#[trigger] cells[c].face_seq(), f),
    ensures
        entry_of(adjacency(cells), f) is None,
{
    let pairs = incidences(cells);
    let pf = pair_faces(pairs);
    lemma_incidences_len(cells);
    lemma_recorded(pairs, f);
    lemma_first_match(keys(adjacency(cells)), f);
    if has_face(pf, f) {
        let a = choose|a: int| 0 <= a < pf.len() && same_face(#[trigger] pf[a], f);
        lemma_incidence_at(cells, a / 4, a % 4);
    }
}

} // verus!

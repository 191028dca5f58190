use vstd::prelude::*;
use crate::face::{same_face, Face};

verus! {

/// Some element of `s` is the face `f`.
pub open spec fn has_face(s: Seq<Face>, f: Face) -> bool {
    exists|i: int| 0 <= i < s.len() && same_face(#[trigger] s[i], f)
}

/// No face occurs twice in `s`.
pub open spec fn distinct_faces(s: Seq<Face>) -> bool {
    forall|i: int, j: int| 0 <= i < j < s.len() ==> !same_face(#[trigger] s[i], #[trigger] s[j])
}

/// The index of the first element of `s` that is the face `f`, or `s.len()`
/// when there is none.
pub open spec fn first_match(s: Seq<Face>, f: Face) -> int
    decreases s.len(),
{
    if s.len() == 0 {
        0
    } else {
        let k = first_match(s.drop_last(), f);
        if k < s.len() - 1 {
            k
        } else if same_face(s.last(), f) {
            s.len() - 1
        } else {
            s.len() as int
        }
    }
}

/// Symmetric-difference insertion: a face that is present leaves, one that is
/// absent is appended.
pub open spec fn toggle(s: Seq<Face>, f: Face) -> Seq<Face> {
    let k = first_match(s, f);
    if k < s.len() {
        s.remove(k)
    } else {
        s.push(f)
    }
}

/// `toggle` applied for each face of `fs` in turn.
pub open spec fn toggle_all(s: Seq<Face>, fs: Seq<Face>) -> Seq<Face>
    decreases fs.len(),
{
    if fs.len() == 0 {
        s
    } else {
        toggle(toggle_all(s, fs.drop_last()), fs.last())
    }
}

/// How many elements of `fs` are the face `f`.
pub open spec fn occurrences(fs: Seq<Face>, f: Face) -> nat
    decreases fs.len(),
{
    if fs.len() == 0 {
        0
    } else {
        occurrences(fs.drop_last(), f) + if same_face(fs.last(), f) {
            1nat
        } else {
            0nat
        }
    }
}

/// `first_match` is in range, points at a match when below the length, and
/// nothing before it matches.
pub proof fn lemma_first_match(s: Seq<Face>, f: Face)
    ensures
        0 <= first_match(s, f) <= s.len(),
        first_match(s, f) < s.len() ==> same_face(s[first_match(s, f)], f),
        forall|j: int| 0 <= j < first_match(s, f) ==> !same_face(#[trigger] s[j], f),
        has_face(s, f) <==> first_match(s, f) < s.len(),
    decreases s.len(),
{
    if s.len() > 0 {
        lemma_first_match(s.drop_last(), f);
        assert forall|j: int| 0 <= j < first_match(s, f) implies !same_face(#[trigger] s[j], f) by {
            if j < s.len() - 1 {
                assert(s[j] == s.drop_last()[j]);
            }
        }
    }
    if has_face(s, f) {
        let i = choose|i: int| 0 <= i < s.len() && same_face(#[trigger] s[i], f);
        assert(first_match(s, f) <= i);
    }
}

/// Returns the position of the first element equal to `face`, or the length.
pub fn find_face(faces: &Vec<Face>, face: &Face) -> (k: usize)
    ensures
        k == first_match(faces@, *face),
{
    let mut i: usize = 0;
    while i < faces.len()
        invariant
            i <= faces.len(),
            forall|j: int| 0 <= j < i ==> !same_face(#[trigger] faces@[j], *face),
        decreases faces.len() - i,
    {
        if faces[i] == *face {
            proof {
                lemma_first_match(faces@, *face);
            }
            return i;
        }
        i += 1;
    }
    proof {
        lemma_first_match(faces@, *face);
    }
    i
}

/// Toggles `face` in `hole`.
pub fn toggle_face(hole: &mut Vec<Face>, face: Face)
    ensures
        final(hole)@ == toggle(old(hole)@, face),
{
    let k = find_face(hole, &face);
    if k < hole.len() {
        hole.remove(k);
    } else {
        hole.push(face);
    }
}

/// Toggling keeps a list free of repeated faces.
pub proof fn lemma_toggle_distinct(s: Seq<Face>, f: Face)
    requires
        distinct_faces(s),
    ensures
        distinct_faces(toggle(s, f)),
{
    lemma_first_match(s, f);
    let k = first_match(s, f);
    let t = toggle(s, f);
    assert forall|i: int, j: int| 0 <= i < j < t.len() implies !same_face(
        #[trigger] t[i],
        #[trigger] t[j],
    ) by {
        if k < s.len() {
            // Both elements stood in `s`, in this order, one place on from
            // `k` where they stood behind it.
            let a = if i < k { i } else { i + 1 };
            let b = if j < k { j } else { j + 1 };
            assert(t[i] == s[a] && t[j] == s[b]);
        } else if j == s.len() {
            // The later one is `f`, which nothing in `s` matches.
            assert(t[i] == s[i] && t[j] == f);
        }
    }
}

/// After a toggle, a face is present exactly when it was present before and is
/// not the toggled face, or was absent before and is the toggled face.
pub proof fn lemma_toggle_membership(s: Seq<Face>, f: Face, g: Face)
    requires
        distinct_faces(s),
    ensures
        has_face(toggle(s, f), g) <==> (has_face(s, g) != same_face(f, g)),
{
    lemma_first_match(s, f);
    let k = first_match(s, f);
    let t = toggle(s, f);
    if k < s.len() {
        // `f` was present at `k` and is gone; what matches `g` elsewhere stays.
        if has_face(t, g) {
            let i = choose|i: int| 0 <= i < t.len() && same_face(#[trigger] t[i], g);
            let a = if i < k { i } else { i + 1 };
            assert(t[i] == s[a]);
        }
        if has_face(s, g) && !same_face(f, g) {
            let a = choose|a: int| 0 <= a < s.len() && same_face(#[trigger] s[a], g);
            let i = if a < k { a } else { a - 1 };
            assert(t[i] == s[a]);
        }
    } else {
        // `f` was absent and comes last; everything else stays in place.
        if has_face(t, g) {
            let i = choose|i: int| 0 <= i < t.len() && same_face(#[trigger] t[i], g);
            assert(i < s.len() ==> t[i] == s[i]);
            assert(i == s.len() ==> t[i] == f);
        }
        if has_face(s, g) {
            let a = choose|a: int| 0 <= a < s.len() && same_face(#[trigger] s[a], g);
            assert(t[a] == s[a]);
        }
        if same_face(f, g) {
            assert(t[s.len() as int] == f);
        }
    }
}

/// A list built by toggling from a list without repeats has no repeats, and a
/// face is in it exactly when its presence at the start and the parity of its
/// occurrences among the toggled faces disagree.
pub proof fn lemma_toggle_all_parity(s: Seq<Face>, fs: Seq<Face>, g: Face)
    requires
        distinct_faces(s),
    ensures
        distinct_faces(toggle_all(s, fs)),
        has_face(toggle_all(s, fs), g) <==> (has_face(s, g) != (occurrences(fs, g) % 2 == 1)),
    decreases fs.len(),
{
    if fs.len() > 0 {
        lemma_toggle_all_parity(s, fs.drop_last(), g);
        let mid = toggle_all(s, fs.drop_last());
        lemma_toggle_distinct(mid, fs.last());
        lemma_toggle_membership(mid, fs.last(), g);
    }
}

/// Toggling a concatenation is toggling its parts one after the other.
pub proof fn lemma_toggle_all_concat(s: Seq<Face>, a: Seq<Face>, b: Seq<Face>)
    ensures
        toggle_all(s, a + b) == toggle_all(toggle_all(s, a), b),
    decreases b.len(),
{
    if b.len() == 0 {
        assert(a + b =~= a);
    } else {
        lemma_toggle_all_concat(s, a, b.drop_last());
        assert((a + b).drop_last() =~= a + b.drop_last());
    }
}

/// Toggling invents no face: every element of the result is an element of
/// the starting list or one of the toggled faces.
pub proof fn lemma_toggle_all_source(s: Seq<Face>, fs: Seq<Face>, i: int)
    requires
        0 <= i < toggle_all(s, fs).len(),
    ensures
        s.contains(toggle_all(s, fs)[i]) || fs.contains(toggle_all(s, fs)[i]),
    decreases fs.len(),
{
    if fs.len() > 0 {
        let mid = toggle_all(s, fs.drop_last());
        let f = fs.last();
        lemma_first_match(mid, f);
        let k = first_match(mid, f);
        let x = toggle_all(s, fs)[i];
        if k < mid.len() {
            let a = if i < k { i } else { i + 1 };
            assert(x == mid[a]);
            lemma_toggle_all_source(s, fs.drop_last(), a);
        } else if i < mid.len() {
            assert(x == mid[i]);
            lemma_toggle_all_source(s, fs.drop_last(), i);
        } else {
            assert(x == fs[fs.len() - 1]);
        }
        if fs.drop_last().contains(x) {
            let j = choose|j: int| 0 <= j < fs.drop_last().len() && fs.drop_last()[j] == x;
            assert(fs[j] == x);
        }
    }
}

} // verus!

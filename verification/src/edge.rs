use vstd::prelude::*;
use crate::point::Point;

verus! {

/// A directed segment from `p1` to `p2`.
#[derive(Copy, Clone, Debug, PartialEq, Eq, Structural)]
pub struct Edge {
    pub p1: Point,
    pub p2: Point,
}

impl Edge {
    /// The segment from `p1` to `p2`.
    pub fn new(p1: Point, p2: Point) -> (e: Self)
        ensures
            e == (Edge { p1, p2 }),
    {
        Edge { p1, p2 }
    }
}

} // verus!

//! Delaunay tetrahedralization by incremental insertion, face adjacency, the
//! medial-axis skeleton of a tetrahedralization, and a parity test for points
//! inside a closed triangle surface.
//!
//! Coordinates travel through this crate as the 64-bit patterns of binary
//! floating-point numbers. The crate compares and classifies such patterns
//! itself, but does no arithmetic on them: where a difference, a squared
//! distance, a circumsphere or a signed volume is needed, the caller hands in
//! a function that computes it, and the contracts say what is decided for
//! whatever that function returns.

pub mod number;
pub mod point;
pub mod edge;
pub mod face;
pub mod tetrahedron;
pub mod bounds;
pub mod hole;
pub mod cavity;
pub mod triangulation;
pub mod adjacency;
pub mod containment;

pub use adjacency::{face_adjacency, medial_axis};
pub use containment::point_inside_shape;
pub use number::almost_equal;
pub use triangulation::delaunay;

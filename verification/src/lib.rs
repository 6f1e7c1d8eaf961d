//! Constructive solid geometry and navigation meshes.
//!
//! Solids are given by their faces and united by way of binary space
//! partitions; the faces of the union that an agent can stand on make a
//! navigation mesh, whose polygons are linked where the agent can walk or
//! step from one to the next; and paths are searched over the links.
//!
//! Nothing here computes with floating point. Coordinates and lengths are
//! `Scalar`s, which hold the encoding of a single-precision value and can be
//! compared, negated and tested for their sign exactly. What takes
//! arithmetic (a distance, a normal, a cut point, a cost) is measured by the
//! caller and handed in. Work that measures and decides in turn is laid out
//! as a sequence of questions: the library says what it needs to know next,
//! the caller answers, and every step has its contract.
use vstd::prelude::*;

pub mod arena;
pub mod astar;
pub mod brush;
pub mod csg;
pub mod edge;
pub mod edgelist;
pub mod link;
pub mod navmesh;
pub mod plane;
pub mod scalar;
pub mod span;
pub mod tree;
pub mod util;
pub mod vector;

verus! {

/// Sum of two unsigned integers.
pub fn add(left: u64, right: u64) -> (sum: u64)
    requires
        left + right <= u64::MAX,
    ensures
        sum == left + right,
{
    left + right
}

} // verus!

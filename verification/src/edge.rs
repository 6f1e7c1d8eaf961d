//! Segments in space, and where a ray meets one.
use crate::scalar::{Scalar, EPSILON_BITS, ONE_BITS};
use crate::vector::Vec3;
use vstd::prelude::*;

verus! {

/// The directed segment from `p1` to `p2`.
#[derive(Clone, Copy, Debug, PartialEq, Eq, Structural)]
pub struct Edge3D {
    pub p1: Vec3,
    pub p2: Vec3,
}

/// A place along an edge, 0 at `p1` and 1 at `p2`, brought back to the
/// nearer end where it lies beyond one.
pub open spec fn clamped(edge_coord: Scalar) -> Scalar {
    if edge_coord.less(Scalar { bits: 0 }) {
        Scalar { bits: 0 }
    } else if (Scalar { bits: ONE_BITS }).less(edge_coord) {
        Scalar { bits: ONE_BITS }
    } else {
        edge_coord
    }
}

impl Edge3D {
    /// Where along the edge a ray meets it, seen from above, if it does.
    /// There is no such place where the ray runs along the edge (`denom` is
    /// next to nothing) or the edge's line lies behind the ray's origin
    /// (`t` is below zero); else it is `edge_coord`, brought back onto the
    /// edge.
    pub open spec fn hit(denom: Scalar, t: Scalar, edge_coord: Scalar) -> Option<Scalar> {
        if denom.absolute().less(Scalar { bits: EPSILON_BITS }) {
            None
        } else if t.less(Scalar { bits: 0 }) {
            None
        } else {
            Some(clamped(edge_coord))
        }
    }

    pub fn new(p1: Vec3, p2: Vec3) -> (e: Edge3D)
        ensures
            e == (Edge3D { p1, p2 }),
    {
        Edge3D { p1, p2 }
    }

    /// Where along the edge a ray meets it, seen from above: 0 at `p1`, 1
    /// at `p2`, never beyond either. With `n` the horizontal direction
    /// across the edge, `denom` is the dot product of the ray's direction
    /// with `n`, `t` the distance along the ray to the edge's line in units
    /// of the direction's length, and `edge_coord` the place along the edge
    /// of the point where the ray meets the line.
    pub fn intersect_ray_clipped(denom: Scalar, t: Scalar, edge_coord: Scalar) -> (r: Option<
        Scalar,
    >)
        ensures
            r == Edge3D::hit(denom, t, edge_coord),
    {
        let zero = Scalar::zero();
        if denom.abs().lt(Scalar::from_bits(EPSILON_BITS)) {
            return None;
        }
        if t.lt(zero) {
            return None;
        }
        let one = Scalar::from_bits(ONE_BITS);
        if edge_coord.lt(zero) {
            Some(zero)
        } else if edge_coord.gt(one) {
            Some(one)
        } else {
            Some(edge_coord)
        }
    }
}

/// Where a ray meets an edge, the place is on the edge: from 0 to 1, unless
/// what was handed in for it is NaN.
pub proof fn lemma_hit_is_on_the_edge(denom: Scalar, t: Scalar, edge_coord: Scalar)
    requires
        Edge3D::hit(denom, t, edge_coord) is Some,
        !edge_coord.nan(),
    ensures
        (Scalar { bits: 0 }).less_eq(Edge3D::hit(denom, t, edge_coord)->0),
        Edge3D::hit(denom, t, edge_coord)->0.less_eq(Scalar { bits: ONE_BITS }),
{
}

} // verus!

//! Crossings between two polygons of a navigation mesh.
use crate::edge::Edge3D;
use vstd::prelude::*;

verus! {

/// How a link is crossed.
#[derive(Clone, Copy, Debug, PartialEq, Eq, Structural)]
pub enum LinkKind {
    /// Both polygons meet at this edge.
    Walk(Edge3D),
    /// A step from the first edge, on the side the link leaves, to the
    /// second, on the side it enters.
    StepUp(Edge3D, Edge3D),
}

/// A crossing from polygon `from` to polygon `to`.
#[derive(Clone, Copy, Debug, PartialEq, Eq, Structural)]
pub struct NavmeshLink {
    pub from: usize,
    pub to: usize,
    pub kind: LinkKind,
}

impl LinkKind {
    /// The same crossing taken the other way.
    pub open spec fn reversed(self) -> LinkKind {
        match self {
            LinkKind::Walk(v) => LinkKind::Walk(v),
            LinkKind::StepUp(a, b) => LinkKind::StepUp(b, a),
        }
    }
}

impl NavmeshLink {
    /// The link from `to` back to `from`.
    pub open spec fn reversed(self) -> NavmeshLink {
        NavmeshLink { from: self.to, to: self.from, kind: self.kind.reversed() }
    }

    /// The edge on the side of `from`.
    pub open spec fn source(self) -> Edge3D {
        match self.kind {
            LinkKind::Walk(v) => v,
            LinkKind::StepUp(v, _) => v,
        }
    }

    /// The edge on the side of `to`.
    pub open spec fn destination(self) -> Edge3D {
        match self.kind {
            LinkKind::Walk(v) => v,
            LinkKind::StepUp(_, v) => v,
        }
    }

    pub fn new(from: usize, to: usize, kind: LinkKind) -> (l: NavmeshLink)
        ensures
            l == (NavmeshLink { from, to, kind }),
    {
        NavmeshLink { from, to, kind }
    }

    pub fn from(&self) -> (r: usize)
        ensures
            r == self.from,
    {
        self.from
    }

    pub fn to(&self) -> (r: usize)
        ensures
            r == self.to,
    {
        self.to
    }

    pub fn kind(&self) -> (r: &LinkKind)
        ensures
            *r == self.kind,
    {
        &self.kind
    }

    pub fn reverse(&self) -> (r: NavmeshLink)
        ensures
            r == self.reversed(),
    {
        NavmeshLink {
            from: self.to,
            to: self.from,
            kind: match self.kind {
                LinkKind::Walk(v) => LinkKind::Walk(v),
                LinkKind::StepUp(a, b) => LinkKind::StepUp(b, a),
            },
        }
    }

    pub fn source_edge(&self) -> (e: Edge3D)
        ensures
            e == self.source(),
    {
        match self.kind {
            LinkKind::Walk(v) => v,
            LinkKind::StepUp(v, _) => v,
        }
    }

    pub fn destination_edge(&self) -> (e: Edge3D)
        ensures
            e == self.destination(),
    {
        match self.kind {
            LinkKind::Walk(v) => v,
            LinkKind::StepUp(_, v) => v,
        }
    }
}

/// Reversing a link twice gives it back, and reversing swaps the edge it
/// leaves by with the edge it enters by.
pub proof fn lemma_reverse_involution(l: NavmeshLink)
    ensures
        l.reversed().reversed() == l,
        l.reversed().source() == l.destination(),
        l.reversed().destination() == l.source(),
{
}

} // verus!

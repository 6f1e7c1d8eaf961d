//! Intervals on a line.
use crate::scalar::Scalar;
use vstd::prelude::*;

verus! {

/// The interval from `min` to `max`.
#[derive(Clone, Copy, Debug, PartialEq, Eq, Structural)]
pub struct Span {
    pub min: Scalar,
    pub max: Scalar,
}

impl Span {
    /// No point lies strictly inside: `min >= max`.
    pub open spec fn empty_spec(self) -> bool {
        self.max.less_eq(self.min)
    }

    /// The overlap of two intervals, the empty interval at zero where
    /// either is empty.
    pub open spec fn overlap(self, other: Span) -> Span {
        if self.empty_spec() || other.empty_spec() {
            Span { min: Scalar { bits: 0 }, max: Scalar { bits: 0 } }
        } else {
            Span { min: self.min.larger(other.min), max: self.max.smaller(other.max) }
        }
    }

    pub fn new(min: Scalar, max: Scalar) -> (s: Span)
        ensures
            s == (Span { min, max }),
    {
        Span { min, max }
    }

    pub fn empty() -> (s: Span)
        ensures
            s == (Span { min: Scalar { bits: 0 }, max: Scalar { bits: 0 } }),
            s.empty_spec(),
    {
        Span { min: Scalar::zero(), max: Scalar::zero() }
    }

    pub fn is_empty(&self) -> (r: bool)
        ensures
            r == self.empty_spec(),
    {
        self.min.ge(self.max)
    }

    pub fn intersect(&self, other: Span) -> (s: Span)
        ensures
            s == self.overlap(other),
    {
        if self.is_empty() || other.is_empty() {
            Span::empty()
        } else {
            Span::new(self.min.max(other.min), self.max.min(other.max))
        }
    }
}

/// Where neither bound of either interval is NaN, a point lies strictly
/// inside the overlap exactly when it lies strictly inside both intervals.
pub proof fn lemma_overlap_is_intersection(a: Span, b: Span, x: Scalar)
    requires
        !a.min.nan(),
        !a.max.nan(),
        !b.min.nan(),
        !b.max.nan(),
    ensures
        (a.overlap(b).min.less(x) && x.less(a.overlap(b).max)) <==> (a.min.less(x) && x.less(a.max)
            && b.min.less(x) && x.less(b.max)),
{
}

} // verus!

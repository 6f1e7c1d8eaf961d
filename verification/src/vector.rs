//! Points and directions in space.
use crate::scalar::{lemma_negated_key, lemma_negated_twice, Scalar};
use vstd::prelude::*;

verus! {

/// Three coordinates; `y` points up.
#[derive(Clone, Copy, Debug, PartialEq, Eq, Structural)]
pub struct Vec3 {
    pub x: Scalar,
    pub y: Scalar,
    pub z: Scalar,
}

impl Vec3 {
    /// Every coordinate is a number, none infinite.
    pub open spec fn finite(self) -> bool {
        self.x.finite() && self.y.finite() && self.z.finite()
    }

    /// The point whose coordinates are all zero.
    pub open spec fn origin() -> Vec3 {
        Vec3 { x: Scalar { bits: 0 }, y: Scalar { bits: 0 }, z: Scalar { bits: 0 } }
    }

    /// Every coordinate with its sign flipped.
    pub open spec fn negated(self) -> Vec3 {
        Vec3 { x: self.x.negated(), y: self.y.negated(), z: self.z.negated() }
    }

    pub fn new(x: Scalar, y: Scalar, z: Scalar) -> (v: Vec3)
        ensures
            v == (Vec3 { x, y, z }),
    {
        Vec3 { x, y, z }
    }

    /// The point whose coordinates have the given encodings.
    pub fn from_bits(x: u32, y: u32, z: u32) -> (v: Vec3)
        ensures
            v.x.bits == x,
            v.y.bits == y,
            v.z.bits == z,
    {
        Vec3 { x: Scalar { bits: x }, y: Scalar { bits: y }, z: Scalar { bits: z } }
    }

    pub fn is_finite(self) -> (r: bool)
        ensures
            r == self.finite(),
    {
        self.x.is_finite() && self.y.is_finite() && self.z.is_finite()
    }

    pub fn neg(self) -> (r: Vec3)
        ensures
            r == self.negated(),
    {
        Vec3 { x: self.x.neg(), y: self.y.neg(), z: self.z.neg() }
    }
}

/// Negating a vector twice gives it back, and negation keeps it finite.
pub proof fn lemma_vec_negated(v: Vec3)
    ensures
        v.negated().negated() == v,
        v.negated().finite() == v.finite(),
{
    lemma_negated_twice(v.x);
    lemma_negated_twice(v.y);
    lemma_negated_twice(v.z);
    lemma_negated_key(v.x);
    lemma_negated_key(v.y);
    lemma_negated_key(v.z);
}

} // verus!

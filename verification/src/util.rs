//! The distance below which two quantities count as the same.
use crate::scalar::Scalar;
use vstd::prelude::*;

verus! {

/// The encoding of the tolerance, the binary32 value nearest to 1e-5.
pub const TOLERANCE_BITS: u32 = 0x3727_c5ac;

/// The tolerance as a value of the specification.
pub open spec fn tolerance_spec() -> Scalar {
    Scalar { bits: TOLERANCE_BITS }
}

/// The tolerance.
#[verifier::when_used_as_spec(tolerance_spec)]
pub fn tolerance() -> (t: Scalar)
    ensures
        t == tolerance_spec(),
        t.key() == TOLERANCE_BITS,
        !t.nan(),
{
    Scalar { bits: TOLERANCE_BITS }
}

} // verus!

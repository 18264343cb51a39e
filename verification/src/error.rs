//! The ways an operation of this library can fail.
use vstd::prelude::*;

verus! {

/// Why an operation was refused.
#[derive(Clone, Copy, Debug, PartialEq, Eq, Structural)]
pub enum RmtError {
    /// A requested shape cannot be built: the number of entries does not fit
    /// the machine, or the supplied draws do not match the shape.
    InvalidDimension,
    /// The eigenvalues are not available as real numbers: the decomposition
    /// gave none, or one of them is not a number.
    EigendecompositionFailure,
    /// A density was asked for outside the domain of its formula.
    DomainViolation,
}

} // verus!

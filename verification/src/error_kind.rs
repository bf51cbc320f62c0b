//! Errors raised when a boolean formula is evaluated under an assignment
//! that does not cover it.

use vstd::prelude::*;

verus! {

/// Everything that can go wrong when a boolean formula is evaluated under a
/// given variable assignment.
#[derive(Debug, Clone, Copy, PartialEq, Eq, Structural)]
pub enum ErrorKind {
    /// The assignment holds no value for the feature with this id, although
    /// the evaluated formula mentions it.
    InsufficientData(usize),
    /// Access to the literal with this feature id failed, because the clause
    /// does not contain it.
    FeatureIdNotPresent(usize),
}

} // verus!

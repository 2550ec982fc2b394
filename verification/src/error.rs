//! The ways an operation can fail.

use vstd::prelude::*;

verus! {

/// Why an operation produced no element.
#[derive(Clone, Copy, Debug, PartialEq, Eq, Structural)]
pub enum VersorError {
    /// The element has squared magnitude zero, so it has neither an inverse
    /// nor a direction.
    DegenerateVersor,
    /// The result has a component too large to store.
    Overflow,
}

} // verus!

//! What can go wrong when parameters are read.

use vstd::prelude::*;

verus! {

/// The failures that reading a view or a component can report.
#[derive(Debug, Clone, Copy, PartialEq, Eq, Structural)]
#[non_exhaustive]
pub enum LinalgError {
    /// An index, or the length a shape asks for, reaches past the end of what is there.
    OutOfBounds,
}

} // verus!

//! What an engine operation reports when it cannot give a result.

use vstd::prelude::*;

verus! {

/// The ways in which an engine operation fails.
#[derive(Debug, Clone, Copy, PartialEq, Eq, Structural)]
pub enum EngineError {
    /// A snapshot does not describe a valid index.
    MalformedBlob,
    /// A key that the spatial index returned has no entry in the document
    /// store.
    InvariantViolation,
}

} // verus!

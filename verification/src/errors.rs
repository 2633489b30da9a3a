//! The error taxonomy of the pipeline.
//!
//! Every failure a collaborator can report is kept as a distinguishable
//! kind internally, even though callers ultimately surface a single
//! textual message.

use vstd::prelude::*;

verus! {

/// A failure of one of the pipeline's collaborators.
#[derive(Debug)]
pub enum RagError {
    /// The embedding or completion service was unreachable or returned
    /// no usable output.
    Provider(String),
    /// The persistent store could not perform a read or a write.
    Storage(String),
    /// A stored record is unusable: its embedding cannot be decoded or
    /// does not fit the query vector.
    Integrity(String),
}

impl RagError {
    /// The detail text carried by the error, whatever its kind.
    pub open spec fn detail(&self) -> Seq<char> {
        match self {
            RagError::Provider(s) => s@,
            RagError::Storage(s) => s@,
            RagError::Integrity(s) => s@,
        }
    }

    /// The single textual message surfaced to the caller.
    pub fn message(&self) -> (r: String)
        ensures
            r@ == self.detail(),
    {
        match self {
            RagError::Provider(s) => s.clone(),
            RagError::Storage(s) => s.clone(),
            RagError::Integrity(s) => s.clone(),
        }
    }
}

} // verus!

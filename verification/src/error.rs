//! What can go wrong, and with which detail it is reported.
use vstd::prelude::*;
use crate::codec::CorruptVector;

verus! {

/// Why a batch of texts got no usable embeddings.
#[derive(Clone, Copy, Debug, PartialEq, Eq, Structural)]
pub enum GenerationFault {
    /// The generator did not answer, or refused the texts.
    Unavailable,
    /// The text at this place of the input is empty.
    EmptyText { index: usize },
    /// The generator answered with another number of vectors than texts.
    WrongCount { expected: usize, found: usize },
    /// The vector at this place of the answer has not the store's dimension.
    WrongDimension { index: usize },
}

/// Why the store could not serve a request.
#[derive(Clone, Copy, Debug, PartialEq, Eq, Structural)]
pub enum StorageFault {
    /// The storage engine reported a failure.
    Unavailable,
    /// The store has no identity left to give to a new row.
    Full,
    /// A record without text was offered for writing.
    EmptyText,
    /// A vector of another length than the store's dimension was offered for
    /// writing.
    WrongDimension,
    /// A row was read that holds no reference.
    MissingReference,
    /// A row was read that holds no text.
    MissingText,
}

/// The failures that an operation reports. None is recovered from inside the
/// library: each ends the operation that met it.
#[derive(Clone, Copy, Debug, PartialEq, Eq, Structural)]
pub enum EngineError {
    /// The embedding generator was unavailable, refused its input, or answered
    /// with vectors that cannot be used.
    GenerationError { fault: GenerationFault },
    /// Reading or writing the store failed; `row` is the identity of the row
    /// at fault, where there is one.
    StorageError { row: Option<i64>, cause: StorageFault },
    /// The row with this identity holds a blob that does not decode.
    CorruptVector { row_id: i64, defect: CorruptVector },
    /// The candidate at this place has no vector of the query's dimension.
    DimensionMismatch { index: usize },
}

} // verus!

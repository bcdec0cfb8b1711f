//! Errors of the storage layer.

use vstd::prelude::*;

verus! {

/// What a storage operation can fail with.
#[derive(Debug)]
pub enum StorageError {
    /// No vertex has this identifier.
    VertexNotFound(String),
    /// No edge has this identifier.
    EdgeNotFound(String),
    /// The vertex still has this many incident edges.
    VertexHasEdges(String, usize),
    /// The label has never been created in this namespace.
    LabelNotFound(String),
    /// No label has this ordinal.
    InvalidLabelId(u16),
    /// The label's ordinals are used up.
    CounterOverflow(String),
    /// The key-value substrate failed.
    DatabaseError(String),
    /// A record could not be written as JSON or read back from it.
    SerializationError(String),
    /// The transaction handle is terminal.
    TransactionError(String),
    /// Another writer changed the key.
    ConcurrentModification(String),
    /// The store holds something the engine never writes.
    InvalidState(String),
    /// Anything else.
    Other(String),
}

impl StorageError {
    /// An error that only carries a message.
    pub fn other(message: &str) -> (r: StorageError)
        ensures
            r matches StorageError::Other(m) && m@ == message@,
    {
        StorageError::Other(message.to_owned())
    }
}

} // verus!

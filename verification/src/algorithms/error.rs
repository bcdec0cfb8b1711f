//! Errors of the path algorithms.

use crate::storage::error::StorageError;
use crate::types::graphid::Graphid;
use vstd::prelude::*;

verus! {

/// What a path algorithm can fail with.
#[derive(Debug)]
pub enum AlgorithmError {
    /// The store failed.
    StorageError(StorageError),
    /// No path leads from the first vertex to the second.
    PathNotFound(Graphid, Graphid),
    /// The parameters describe no search.
    InvalidParameters(String),
    /// The algorithm gave up.
    AlgorithmFailed(String),
}

} // verus!

//! Errors of query execution.

use crate::storage::error::StorageError;
use crate::storage::transaction::GraphTransaction;
use vstd::prelude::*;

verus! {

/// What executing a query can fail with.
#[derive(Debug)]
pub enum ExecutionError {
    /// The store failed.
    StorageError(StorageError),
    /// A row binds no such variable.
    VariableNotFound(String),
    /// A value has the wrong type for its use.
    TypeMismatch { expected: String, actual: String },
    /// The expression cannot be evaluated.
    InvalidExpression(String),
    /// A record has no such property.
    PropertyNotFound(String),
    /// The query uses what is not implemented.
    UnsupportedOperation(String),
}

/// The kinds of failure, without their messages.
pub enum Failure {
    Storage,
    VariableNotFound(Seq<char>),
    TypeMismatch,
    InvalidExpression,
    PropertyNotFound(Seq<char>),
    Unsupported,
}

impl ExecutionError {
    /// The kind of this error.
    pub open spec fn kind(self) -> Failure {
        match self {
            ExecutionError::StorageError(_) => Failure::Storage,
            ExecutionError::VariableNotFound(v) => Failure::VariableNotFound(v@),
            ExecutionError::TypeMismatch { .. } => Failure::TypeMismatch,
            ExecutionError::InvalidExpression(_) => Failure::InvalidExpression,
            ExecutionError::PropertyNotFound(p) => Failure::PropertyNotFound(p@),
            ExecutionError::UnsupportedOperation(_) => Failure::Unsupported,
        }
    }

    /// A type mismatch between what was expected and what was there.
    pub fn mismatch(expected: &str, actual: &str) -> (r: ExecutionError)
        ensures
            r.kind() == Failure::TypeMismatch,
            r matches ExecutionError::TypeMismatch { expected: e, actual: a } && e@ == expected@
                && a@ == actual@,
    {
        ExecutionError::TypeMismatch { expected: expected.to_owned(), actual: actual.to_owned() }
    }

    /// An invalid expression, with the message that says why.
    pub fn invalid(message: &str) -> (r: ExecutionError)
        ensures
            r.kind() == Failure::InvalidExpression,
            r matches ExecutionError::InvalidExpression(m) && m@ == message@,
    {
        ExecutionError::InvalidExpression(message.to_owned())
    }

    /// An unsupported operation, with the message that names it.
    pub fn unsupported(message: &str) -> (r: ExecutionError)
        ensures
            r.kind() == Failure::Unsupported,
            r matches ExecutionError::UnsupportedOperation(m) && m@ == message@,
    {
        ExecutionError::UnsupportedOperation(message.to_owned())
    }
}

/// The error that a clause gives on a terminal transaction handle: the
/// storage error that says how the handle ended.
pub open spec fn terminal(tx: &GraphTransaction, e: ExecutionError) -> bool {
    &&& !tx.is_open()
    &&& e matches ExecutionError::StorageError(x) && tx.refuses(x)
}

} // verus!

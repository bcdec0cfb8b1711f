//! The query executor.

pub mod aggregate;
pub mod convert;
pub mod create;
pub mod delete;
pub mod error;
pub mod eval;
pub mod floats;
pub mod matcher;
pub mod ordering;
pub mod pipeline;
pub mod projection;
pub mod query;
pub mod set;
pub mod value;

pub use error::ExecutionError;
pub use floats::{FloatOps, NoFloats};
pub use create::CreateExecutor;
pub use delete::DeleteExecutor;
pub use matcher::MatchExecutor;
pub use query::QueryExecutor;
pub use set::SetExecutor;
pub use value::{Field, Row, RowValue};

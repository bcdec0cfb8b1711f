//! The storage engine: key schema, key-value substrate, record codec,
//! transactions and the graph store built on them.

pub mod codec;
pub mod engine;
pub mod error;
pub mod graph;
pub mod keys;
pub mod kv;
pub mod laws;
pub mod lists;
pub mod scans;
pub mod transaction;

pub use engine::GraphStore;
pub use error::StorageError;
pub use graph::GraphStorage;
pub use kv::{Entry, KvStore, MemoryKv, WriteOp};
pub use transaction::GraphTransaction;

//! An embedded property-graph database: packed identifiers, vertex / edge /
//! path records, a key schema over an ordered key-value substrate, a
//! transactional storage engine, a Cypher-subset parser and executor, and
//! path algorithms over the storage interface.

pub mod algorithms;
pub mod bytes;
pub mod executor;
pub mod json;
pub mod parser;
pub mod storage;
pub mod text;
pub mod tools;
pub mod types;

pub use algorithms::{
    dijkstra, shortest_path, variable_length_expand, AlgorithmError, ShortestPathResult,
    VariableLengthPath, VleOptions,
};
pub use executor::{ExecutionError, QueryExecutor, Row, RowValue};
pub use parser::ast::{CypherQuery, EdgePattern, Expression, NodePattern, Pattern};
pub use parser::{parse_cypher, ParseError};
pub use storage::{GraphStorage, GraphStore, GraphTransaction, StorageError};
pub use tools::{ExportFormat, ExportOptions, ImportOptions, ImportStats};
pub use types::{Edge, GraphPath, Graphid, Vertex};

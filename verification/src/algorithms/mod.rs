//! Path algorithms over the storage interface.

pub mod error;
pub mod shortest_path;
pub mod vle;

pub use error::AlgorithmError;
pub use shortest_path::{
    dijkstra, shortest_path, shortest_paths_from, ReachedVertex, ShortestPathResult,
};
pub use vle::{
    k_hop_neighbors, neighbors_within_k_hops, variable_length_expand,
    variable_length_paths_between, VariableLengthPath, VleOptions,
};

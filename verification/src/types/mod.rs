//! Core record types: identifiers, vertices, edges and paths.

pub mod edge;
pub mod graphid;
pub mod path;
pub mod vertex;

pub use edge::{Edge, EdgeView};
pub use graphid::{Graphid, GraphidError};
pub use path::{GraphPath, PathError, PathView};
pub use vertex::{Vertex, VertexView};

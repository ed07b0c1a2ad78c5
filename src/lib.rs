//! A planar half-edge connectivity kernel: vertices, directed half-edges and
//! faces stored in flat arrays and addressed by typed handles, with walks
//! around faces and vertices and edits that split edges and faces.

pub mod circulator;
pub mod handles;
pub mod kernel;
pub mod laws;
pub mod ring;

pub use handles::{
    Id, Index, Vertex_, Edge_, Face_, VertexId, EdgeId, FaceId, no_edge, no_face, no_vertex,
    edge_id, face_id, vertex_id, IdRange, VertexIdRange, EdgeIdRange, FaceIdRange, IdRangeIterator,
    VertexIdIterator, EdgeIdIterator, FaceIdIterator,
};
pub use kernel::{ConnectivityKernel, HalfEdge, Face, Vertex};
pub use kernel::walk::{FaceEdgeIterator, ReverseFaceEdgeIterator, VertexEdgeIterator};
pub use circulator::{Direction, EdgeCirculator, DirectedEdgeCirculator};

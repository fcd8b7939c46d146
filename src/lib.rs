//! An indexed polygon mesh kernel: vertices, lines and polys stored as flat
//! arrays of positions and vertex indices, with structural edits that keep
//! every reference between the arrays valid.

pub mod insert;
pub mod mesh;
pub mod selection;
pub mod document;
pub mod types;

pub use document::{next_version_number, Cli, LoadPlan};
pub use insert::{InsertLineOperation, InsertOperation, InsertOperationResult, InsertVertOperation};
pub use mesh::{mesh_bfs, Mesh, MeshView};
pub use selection::Selection;
pub use types::{Axis, Line, LineIndex, MirrorMode, Poly, PolyIndex, VertIndex};

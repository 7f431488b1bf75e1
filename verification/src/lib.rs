//! Core logic of an S3-compatible object store: turning uploads into
//! content-addressed blocks with CRDT-merged metadata, plus the symmetric
//! delete path.

pub mod block_ref_table;
pub mod crdt;
pub mod data;
pub mod delete;
pub mod error;
pub mod hashes;
pub mod object_table;
pub mod put;
pub mod schema;
pub mod version_table;

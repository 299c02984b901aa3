//! A sparse vector: a container that maps a subset of the `usize` indices to
//! values and keeps them in two parallel arrays ordered by index.

pub mod laws;
pub mod order;
pub mod sparse_vecs;

pub use sparse_vecs::SparseVec;

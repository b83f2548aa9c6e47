//! Tombstones for the documents of a segment: a packed bit buffer in which a
//! set bit marks a deleted document, with point queries, an exact count of
//! the deleted documents, an encoder, and a merge of two buffers.

pub mod bits;
pub mod bitset;
pub mod delete;
pub mod encode;
pub mod merge;

pub use crate::delete::{merge_delete_bitset, DeleteBitSet};
pub use crate::encode::write_delete_bitset;

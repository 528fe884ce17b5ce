//! Session memory: the directory-tree index with its persisted snapshot,
//! and the host's owned session state.

pub mod cache;
pub mod index;
pub mod index_codec;

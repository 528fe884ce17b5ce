//! Core of a local-filesystem search tool: query parsing, recursive
//! directory search with exclusion rules, result sorting and paging, a
//! persistable directory-tree index, and a small navigation history.

pub mod display;
pub mod fs_model;
pub mod hashing;
pub mod memory;
pub mod paths;
pub mod resource_manager;
pub mod ring_buffer;
pub mod settings;
pub mod search_engine;
pub mod sorting;
pub mod text;

pub use ring_buffer::RingBuffer;

//! A file-system storage engine: structured keys mapped onto a directory tree,
//! with last-writer-wins ordering by logical timestamp, tombstoned deletions
//! and per-key content-type metadata.
pub mod timestamp;
pub mod codec;
pub mod keyexpr;
pub mod table;
pub mod data_info;
pub mod files;
pub mod storage;
pub mod laws;
pub mod config;
pub mod backend;

//! A segmented download engine: a resource is split into byte ranges, each
//! range is fetched by its own worker into a temporary file, and the files
//! are joined in range order into the destination file.
//!
//! The library holds the decisions: how ranges are planned, how each worker
//! and each entry moves between its states, which files are created, kept,
//! merged or removed, and how the shared progress table is kept. The caller
//! performs the network and file work that those decisions ask for.

pub mod download;
pub mod downloader;
pub mod text;

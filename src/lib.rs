//! A directory-tree viewer: ignore rules with wildcard patterns, an entry
//! filter, and a depth-first walk that draws each entry below connectors
//! that show the tree's shape.
pub mod app;
pub mod config;
pub mod entry;
pub mod error;
pub mod filter;
pub mod fmt;
pub mod glob;
pub mod laws;
pub mod paint;
pub mod sort;
pub mod text;

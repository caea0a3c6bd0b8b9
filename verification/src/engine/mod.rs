//! Core modules for Scope's indexing and querying engine.
//!
//! - `graph` — the dependency graph's records and query post-processing
//! - `workspace_graph` — workspace-level merging over multiple graphs
//! - `parser` — supported languages and their file extensions
//! - `embedder` — text construction for FTS5 search indexing
//! - `searcher` — FTS5 query construction
//! - `selection` — entry points, importance ranking and directory statistics
//! - `traversal` — impact groups, dependency lists and call paths from query rows
//! - `watcher` — file-event filtering and watch-session bookkeeping
pub mod embedder;
pub mod parser;
pub mod graph;
pub mod indexer;
pub mod searcher;
pub mod selection;
pub mod traversal;
pub mod watcher;
pub mod workspace_graph;

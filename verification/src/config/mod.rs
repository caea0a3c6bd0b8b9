//! Configuration management for Scope projects and workspaces.
//!
//! The shapes of `.scope/config.toml` and `scope-workspace.toml` and the
//! rules they drive.
pub mod project;
pub mod workspace;

pub use project::ProjectConfig;

//! The MCP server's tools: each tool maps to a scope command line.
//!
//! The server and the subprocess run outside this crate; here are the
//! tools' parameters and the argument lists they run `scope` with.
pub mod tools;

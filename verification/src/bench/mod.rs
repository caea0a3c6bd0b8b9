//! The benchmark runner's logic: reading agent runs, measuring how agents
//! used Scope, checking their edits, and the runner's command line.
//!
//! Running agents, git and compilers, and reading and writing files happen
//! outside this crate; these modules decide what those results mean.
pub mod agent;
pub mod behavior;
pub mod json;
pub mod task;
pub mod cli;
pub mod checks;
pub mod report;
pub mod plan;
pub mod trial;

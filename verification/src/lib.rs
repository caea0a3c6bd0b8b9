//! Scope: code intelligence for coding agents — the verified core.
//!
//! This crate holds the logic of the Scope code-intelligence tool: symbol
//! and path text handling, configuration rules, search-query construction,
//! impact and reference post-processing, and the benchmark runner's
//! analysis of agent transcripts.
#![allow(unused_imports)]

pub mod bench;
pub mod commands;
pub mod config;
pub mod engine;
pub mod error;
pub mod mcp;
pub mod num;
pub mod order;
pub mod path;
pub mod text;

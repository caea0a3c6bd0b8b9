//! `scope trace <symbol>` — call paths from entry points to a symbol.
use vstd::prelude::*;

verus! {

/// Arguments for the `scope trace` command.
#[derive(Debug, Clone)]
pub struct TraceArgs {
    /// Target symbol to trace call paths to.
    pub symbol: String,
    /// Maximum call-path depth.
    pub max_depth: usize,
    /// Maximum number of paths to show.
    pub limit: usize,
    /// Output as JSON instead of human-readable format.
    pub json: bool,
}

} // verus!

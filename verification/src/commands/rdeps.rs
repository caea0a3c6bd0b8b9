//! `scope rdeps <symbol>` — what depends on a symbol.
use vstd::prelude::*;

verus! {

/// Arguments for the `scope rdeps` command.
#[derive(Debug, Clone)]
pub struct RdepsArgs {
    /// Symbol name or file path to find dependents of.
    pub symbol: String,
    /// Transitive depth (default 1 = direct dependents only).
    pub depth: usize,
    /// Output as JSON instead of human-readable format.
    pub json: bool,
}

} // verus!

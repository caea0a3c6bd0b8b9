//! `scope impact <symbol>` — what breaks if a symbol changes.
use vstd::prelude::*;

verus! {

/// Arguments for the `scope impact` command.
#[derive(Debug, Clone)]
pub struct ImpactArgs {
    /// Symbol name or file path to analyse.
    pub symbol: String,
    /// Maximum traversal depth.
    pub depth: usize,
    /// Output as JSON instead of human-readable format.
    pub json: bool,
}

} // verus!

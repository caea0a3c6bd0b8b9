//! `scope deps <symbol>` — what a symbol depends on.
use vstd::prelude::*;

verus! {

/// Arguments for the `scope deps` command.
#[derive(Debug, Clone)]
pub struct DepsArgs {
    /// Symbol name or file path to show dependencies for.
    pub symbol: String,
    /// Transitive depth (default 1 = direct dependencies only).
    pub depth: usize,
    /// Output as JSON instead of human-readable format.
    pub json: bool,
}

} // verus!

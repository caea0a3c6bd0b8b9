//! `scope find <query>` — full-text search over symbols.
use vstd::prelude::*;

verus! {

/// Arguments for the `scope find` command.
#[derive(Debug, Clone)]
pub struct FindArgs {
    /// Search query (natural language or keywords).
    pub query: String,
    /// Filter by symbol kind.
    pub kind: Option<String>,
    /// Filter by language.
    pub lang: Option<String>,
    /// Maximum number of results.
    pub limit: usize,
    /// Output as JSON instead of human-readable format.
    pub json: bool,
}

} // verus!

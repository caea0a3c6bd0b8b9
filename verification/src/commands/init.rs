//! `scope init` — set up Scope for a project.
use vstd::prelude::*;

verus! {

/// Arguments for the `scope init` command.
#[derive(Debug, Clone)]
pub struct InitArgs {
    /// Output as JSON instead of human-readable format.
    pub json: bool,
}

} // verus!

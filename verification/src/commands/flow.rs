//! `scope flow <start> <end>` — call paths between two symbols.
//!
//! The graph finds the paths; this module caps how many are shown, notes
//! whether more exist, and turns each step into its reported record.
use vstd::prelude::*;
use crate::engine::graph::CallPathStep;

verus! {

/// Arguments for the `scope flow` command.
#[derive(Debug, Clone)]
pub struct FlowArgs {
    /// Starting symbol.
    pub start: String,
    /// Ending symbol.
    pub end: String,
    /// Maximum path depth.
    pub depth: usize,
    /// Maximum number of paths to show.
    pub limit: usize,
    /// Output as JSON instead of human-readable format.
    pub json: bool,
}

/// The `scope flow` JSON payload.
#[derive(Debug, Clone)]
pub struct FlowOutput {
    /// Starting symbol as given.
    pub start: String,
    /// Ending symbol as given.
    pub end: String,
    /// The paths found.
    pub paths: Vec<FlowPath>,
    /// Number of paths shown.
    pub total: usize,
    /// The depth limit used.
    pub depth_limit: usize,
}

/// One call path.
#[derive(Debug, Clone)]
pub struct FlowPath {
    /// The steps from start to end.
    pub steps: Vec<FlowStep>,
}

/// One step of a call path.
#[derive(Debug, Clone)]
pub struct FlowStep {
    /// Symbol name.
    pub name: String,
    /// File path of the symbol.
    pub file_path: String,
    /// First line of the symbol.
    pub line_start: u32,
    /// Symbol kind (function, class, method, etc.).
    pub kind: String,
}

/// The reported record of a call-path step.
pub open spec fn step_of(s: CallPathStep) -> FlowStep {
    FlowStep { name: s.symbol_name, file_path: s.file_path, line_start: s.line, kind: s.kind }
}

/// The view of a reported path: its steps.
pub open spec fn path_view(p: FlowPath) -> Seq<FlowStep> {
    p.steps@
}

/// The paths shown: the first `limit` of those found (the query is asked
/// for one more than `limit`, so that a truncation shows), each step turned
/// into its record; with the number shown and whether any were left out.
pub fn flow_paths(raw: Vec<Vec<CallPathStep>>, limit: usize) -> (r: (Vec<FlowPath>, usize, bool))
    ensures
        r.2 == (raw@.len() > limit),
        r.1 == if raw@.len() > limit { limit as int } else { raw@.len() as int },
        r.0@.len() == r.1,
        forall|i: int|
            0 <= i < r.0@.len() ==> #[trigger] path_view(r.0@[i]) == raw@[i]@.map_values(
                |s: CallPathStep| step_of(s),
            ),
{
    let truncated = raw.len() > limit;
    let total = if truncated { limit } else { raw.len() };
    let mut paths: Vec<FlowPath> = Vec::new();
    let mut i: usize = 0;
    while i < total
        invariant
            i <= total <= raw@.len(),
            paths@.len() == i,
            forall|k: int|
                0 <= k < i ==> #[trigger] path_view(paths@[k]) == raw@[k]@.map_values(
                    |s: CallPathStep| step_of(s),
                ),
        decreases total - i,
    {
        let src = &raw[i];
        let mut steps: Vec<FlowStep> = Vec::new();
        let mut j: usize = 0;
        while j < src.len()
            invariant
                j <= src.len(),
                steps@ == src@.take(j as int).map_values(|s: CallPathStep| step_of(s)),
            decreases src.len() - j,
        {
            let s = &src[j];
            steps.push(
                FlowStep {
                    name: s.symbol_name.clone(),
                    file_path: s.file_path.clone(),
                    line_start: s.line,
                    kind: s.kind.clone(),
                },
            );
            assert(src@.take(j + 1).map_values(|s: CallPathStep| step_of(s)) =~= src@.take(
                j as int,
            ).map_values(|s: CallPathStep| step_of(s)).push(step_of(*s)));
            j = j + 1;
        }
        assert(src@.take(src@.len() as int) =~= src@);
        paths.push(FlowPath { steps });
        i = i + 1;
    }
    (paths, total, truncated)
}

} // verus!

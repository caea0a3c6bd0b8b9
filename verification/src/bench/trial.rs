//! A single-task validation run (`test`): which task it uses, and what the
//! telemetry of each of its runs must show before a full benchmark is
//! worth running.
use vstd::prelude::*;
use crate::bench::agent::AgentRun;
use crate::bench::cli::field_of;
use crate::bench::task::TaskMeta;
use crate::text::{str_eq, views};

verus! {

/// Why no task could be chosen for the validation run.
#[derive(Debug, Clone, PartialEq, Eq)]
pub enum TrialTaskError {
    /// No task has the requested id.
    TaskNotFound(String),
    /// No task has the requested language.
    NoTasksForLanguage(String),
    /// There are no tasks at all.
    NoTasks,
}

/// `i` is the first task whose field (0 id, 2 language) is `want`.
pub open spec fn first_with(tasks: Seq<TaskMeta>, field: u8, want: Seq<char>, i: int) -> bool {
    &&& 0 <= i < tasks.len()
    &&& field_of(tasks[i], field) == want
    &&& forall|j: int| 0 <= j < i ==> field_of(#[trigger] tasks[j], field) != want
}

/// No task's field (0 id, 2 language) is `want`.
pub open spec fn none_with(tasks: Seq<TaskMeta>, field: u8, want: Seq<char>) -> bool {
    forall|j: int| 0 <= j < tasks.len() ==> field_of(#[trigger] tasks[j], field) != want
}

/// The task the validation run uses when neither id nor language is given.
pub open spec fn default_trial_id() -> Seq<char> {
    "ts-cat-a-01"@
}

/// The first task whose field is `want`.
fn first_index_with(tasks: &[TaskMeta], field: u8, want: &str) -> (r: Option<usize>)
    requires
        field == 0 || field == 2,
    ensures
        match r {
            Some(i) => first_with(tasks@, field, want@, i as int),
            None => none_with(tasks@, field, want@),
        },
{
    let mut i: usize = 0;
    while i < tasks.len()
        invariant
            i <= tasks.len(),
            field == 0 || field == 2,
            forall|j: int| 0 <= j < i ==> field_of(#[trigger] tasks@[j], field) != want@,
        decreases tasks.len() - i,
    {
        let t = &tasks[i];
        let hit = if field == 0 { str_eq(t.id.as_str(), want) } else { str_eq(t.language.as_str(), want) };
        if hit {
            return Some(i);
        }
        i = i + 1;
    }
    None
}

/// Choose the validation run's task: the one with the id asked for, else
/// the first with the language asked for, else the default task, else the
/// first task.
pub fn trial_task(tasks: &[TaskMeta], task: &Option<String>, language: &Option<String>) -> (r: Result<usize, TrialTaskError>)
    ensures
        match task {
            Some(id) => match r {
                Ok(i) => first_with(tasks@, 0, id@, i as int),
                Err(e) => none_with(tasks@, 0, id@) && e == TrialTaskError::TaskNotFound(*id),
            },
            None => match language {
                Some(l) => match r {
                    Ok(i) => first_with(tasks@, 2, l@, i as int),
                    Err(e) => none_with(tasks@, 2, l@) && e == TrialTaskError::NoTasksForLanguage(*l),
                },
                None => match r {
                    Ok(i) => first_with(tasks@, 0, default_trial_id(), i as int) || (i == 0 && tasks@.len() > 0
                        && none_with(tasks@, 0, default_trial_id())),
                    Err(e) => tasks@.len() == 0 && e == TrialTaskError::NoTasks,
                },
            },
        },
{
    match task {
        Some(id) => match first_index_with(tasks, 0, id.as_str()) {
            Some(i) => Ok(i),
            None => Err(TrialTaskError::TaskNotFound(id.clone())),
        },
        None => match language {
            Some(l) => match first_index_with(tasks, 2, l.as_str()) {
                Some(i) => Ok(i),
                None => Err(TrialTaskError::NoTasksForLanguage(l.clone())),
            },
            None => match first_index_with(tasks, 0, "ts-cat-a-01") {
                Some(i) => Ok(i),
                None => if tasks.len() > 0 {
                    Ok(0)
                } else {
                    Err(TrialTaskError::NoTasks)
                },
            },
        },
    }
}

/// The problems a validation run's telemetry shows: no input or output
/// tokens, no actions, no file reads, no Scope command although Scope was
/// enabled, and a missing (`None`) or empty raw NDJSON stream.
pub open spec fn spec_telemetry_issues(run: AgentRun, scope_enabled: bool, ndjson_size: Option<u64>) -> Seq<Seq<char>> {
    (if run.input_tokens == 0 { seq!["input_tokens = 0"@] } else { Seq::empty() }) + (if run.output_tokens == 0 {
        seq!["output_tokens = 0"@]
    } else {
        Seq::empty()
    }) + (if run.actions@.len() == 0 { seq!["actions[] is empty"@] } else { Seq::empty() }) + (if run.file_reads
        == 0 {
        seq!["file_reads = 0"@]
    } else {
        Seq::empty()
    }) + (if scope_enabled && run.scope_commands_called@.len() == 0 {
        seq!["scope_commands_called is empty (agent may not have used scope)"@]
    } else {
        Seq::empty()
    }) + match ndjson_size {
        None => seq!["NDJSON file was not saved"@],
        Some(n) => if n == 0 { seq!["NDJSON file is empty"@] } else { Seq::empty() },
    }
}

/// List what is wrong with a validation run's telemetry (nothing when it
/// is valid).
pub fn telemetry_issues(run: &AgentRun, scope_enabled: bool, ndjson_size: Option<u64>) -> (r: Vec<String>)
    ensures
        views(r@) == spec_telemetry_issues(*run, scope_enabled, ndjson_size),
{
    let mut out: Vec<String> = Vec::new();
    if run.input_tokens == 0 {
        out.push("input_tokens = 0".to_string());
    }
    if run.output_tokens == 0 {
        out.push("output_tokens = 0".to_string());
    }
    if run.actions.len() == 0 {
        out.push("actions[] is empty".to_string());
    }
    if run.file_reads == 0 {
        out.push("file_reads = 0".to_string());
    }
    if scope_enabled && run.scope_commands_called.len() == 0 {
        out.push("scope_commands_called is empty (agent may not have used scope)".to_string());
    }
    match ndjson_size {
        None => out.push("NDJSON file was not saved".to_string()),
        Some(n) => if n == 0 {
            out.push("NDJSON file is empty".to_string());
        },
    }
    proof {
        assert(views(out@) =~= spec_telemetry_issues(*run, scope_enabled, ndjson_size));
    }
    out
}

} // verus!

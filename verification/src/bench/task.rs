//! Benchmark task definitions, read from TOML files.
use vstd::prelude::*;

verus! {

/// Identity and classification of a task.
#[derive(Debug, Clone)]
pub struct TaskMeta {
    /// Unique task id (e.g. `ts-cat-a-01`).
    pub id: String,
    /// Task category.
    pub category: String,
    /// Language of the corpus.
    pub language: String,
    /// Name of the fixture corpus.
    pub corpus: String,
    /// What the task asks for.
    pub description: String,
}

/// The prompt given to the agent.
#[derive(Debug, Clone)]
pub struct PromptDef {
    /// The prompt text.
    pub text: String,
}

/// The symbol a task is about.
#[derive(Debug, Clone)]
pub struct TargetDef {
    /// The target symbol.
    pub symbol: String,
    /// The file that defines it.
    pub file: String,
}

/// What a correct solution touches.
#[derive(Debug, Clone)]
pub struct GroundTruthDef {
    /// Caller locations (`file:line`) that a correct change updates.
    pub callers: Vec<String>,
}

impl Default for GroundTruthDef {
    fn default() -> (r: Self)
        ensures
            r.callers@.len() == 0,
    {
        GroundTruthDef { callers: Vec::new() }
    }
}

/// The scope commands a task expects an agent to use.
#[derive(Debug, Clone)]
pub struct ScopeDef {
    /// Expected commands (e.g. `scope refs`).
    pub expected_commands: Vec<String>,
}

/// A task is valid when it has an id and a prompt.
pub open spec fn spec_task_valid(meta: TaskMeta, prompt: PromptDef) -> bool {
    meta.id@.len() > 0 && prompt.text@.len() > 0
}

/// Why a task definition was rejected.
#[derive(Debug, Clone, PartialEq, Eq)]
pub enum TaskError {
    /// The task's id is empty.
    EmptyId,
    /// The task (by id) has an empty prompt.
    EmptyPrompt(String),
}

/// Validate required fields of a loaded task.
pub fn validate_task(meta: &TaskMeta, prompt: &PromptDef) -> (r: Result<(), TaskError>)
    ensures
        meta.id@.len() == 0 ==> r == Err::<(), TaskError>(TaskError::EmptyId),
        meta.id@.len() > 0 && prompt.text@.len() == 0 ==> (match r {
            Err(TaskError::EmptyPrompt(id)) => id@ == meta.id@,
            _ => false,
        }),
        spec_task_valid(*meta, *prompt) ==> r is Ok,
{
    if meta.id.as_str().unicode_len() == 0 {
        return Err(TaskError::EmptyId);
    }
    if prompt.text.as_str().unicode_len() == 0 {
        return Err(TaskError::EmptyPrompt(meta.id.clone()));
    }
    Ok(())
}

} // verus!

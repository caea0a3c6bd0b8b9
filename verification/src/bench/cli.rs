//! The benchmark runner's command line: its arguments, task selection,
//! prepared-directory names and durations.
use vstd::prelude::*;
use crate::bench::task::TaskMeta;
use crate::num::{decimal, u64_text};
use crate::text::{
    chars_of, contains_seq, extend_chars, extend_str, find_exec, find_seq, lemma_find_from, occurs_at,
    slice_chars, string_of,
};

verus! {

/// Benchmark harness for Scope CLI.
#[derive(Debug, Clone)]
pub struct Cli {
    /// The subcommand to run.
    pub command: Commands,
}

/// The runner's subcommands.
#[derive(Debug, Clone)]
pub enum Commands {
    /// Run benchmarks against tasks.
    Run(RunArgs),
    /// Prepare working directories for manual runs.
    Prepare(PrepareArgs),
    /// Import manually captured results.
    Import(ImportArgs),
    /// Generate a report from saved results.
    Report(ReportArgs),
    /// Generate or verify fixture manifests.
    Manifest(ManifestArgs),
    /// Verify a prepared working directory.
    Verify(VerifyArgs),
    /// Run a quick single-task test.
    Test(TestArgs),
}

/// Report formats.
#[derive(Debug, Clone, Copy, PartialEq, Eq, Structural)]
pub enum OutputFormat {
    /// JSON output.
    Json,
    /// Markdown output.
    Markdown,
}

/// Arguments for `run`.
#[derive(Debug, Clone)]
pub struct RunArgs {
    /// Run all tasks.
    pub all: bool,
    /// Run a single task by id.
    pub task: Option<String>,
    /// Run all tasks of a category.
    pub category: Option<String>,
    /// Run all tasks of a language.
    pub language: Option<String>,
    /// Repetitions per task and condition.
    pub reps: u32,
    /// Run both with and without Scope.
    pub compare: bool,
    /// Run only without Scope.
    pub no_scope: bool,
    /// Run only with Scope.
    pub scope_only: bool,
    /// Model to use.
    pub model: Option<String>,
    /// Number of conditions (1 = with/without, 3 = adds preloaded).
    pub conditions: u32,
    /// Directory to save raw NDJSON streams in.
    pub save_ndjson: Option<String>,
    /// Output directory for results.
    pub output_dir: Option<String>,
    /// Number of runs in parallel.
    pub parallel: usize,
    /// Skip runs that already have results.
    pub resume: bool,
}

/// Arguments for `prepare`.
#[derive(Debug, Clone)]
pub struct PrepareArgs {
    /// Prepare all tasks.
    pub all: bool,
    /// Prepare a single task by id.
    pub task: Option<String>,
    /// Prepare all tasks of a language.
    pub language: Option<String>,
    /// Prepare both with and without Scope.
    pub compare: bool,
    /// Number of conditions.
    pub conditions: u32,
    /// Output directory.
    pub output_dir: Option<String>,
}

/// Arguments for `import`.
#[derive(Debug, Clone)]
pub struct ImportArgs {
    /// Input file with captured results.
    pub input: String,
    /// Directory with raw NDJSON streams.
    pub ndjson_dir: Option<String>,
    /// Output format.
    pub output: OutputFormat,
    /// Output directory.
    pub output_dir: Option<String>,
}

/// Arguments for `report`.
#[derive(Debug, Clone)]
pub struct ReportArgs {
    /// Input results file.
    pub input: String,
    /// Output format.
    pub output: OutputFormat,
}

/// Arguments for `manifest`.
#[derive(Debug, Clone)]
pub struct ManifestArgs {
    /// Generate manifests.
    pub generate: bool,
    /// Verify manifests.
    pub verify: bool,
    /// Restrict to one fixture.
    pub fixture: Option<String>,
}

/// Arguments for `verify`.
#[derive(Debug, Clone)]
pub struct VerifyArgs {
    /// The prepared working directory.
    pub dir: String,
    /// Task id (derived from the directory name when absent).
    pub task: Option<String>,
    /// Output as JSON.
    pub json: bool,
}

/// Arguments for `test`.
#[derive(Debug, Clone)]
pub struct TestArgs {
    /// Task id.
    pub task: Option<String>,
    /// Language.
    pub language: Option<String>,
    /// Model to use.
    pub model: String,
}

/// A duration in seconds as `Ns`, `Mm Ns` or `Hh Mm Ns`.
pub open spec fn spec_format_duration(secs: nat) -> Seq<char> {
    if secs < 60 {
        decimal(secs) + "s"@
    } else if secs < 3600 {
        decimal(secs / 60) + "m "@ + decimal(secs % 60) + "s"@
    } else {
        decimal(secs / 3600) + "h "@ + decimal((secs % 3600) / 60) + "m "@ + decimal(secs % 60) + "s"@
    }
}

/// Format a duration in seconds for progress output.
pub fn format_duration(secs: u64) -> (r: String)
    ensures
        r@ == spec_format_duration(secs as nat),
{
    let mut v: Vec<char>;
    if secs < 60 {
        v = u64_text(secs);
    } else if secs < 3600 {
        v = u64_text(secs / 60);
        extend_str(&mut v, "m ");
        extend_chars(&mut v, &u64_text(secs % 60));
    } else {
        v = u64_text(secs / 3600);
        extend_str(&mut v, "h ");
        extend_chars(&mut v, &u64_text((secs % 3600) / 60));
        extend_str(&mut v, "m ");
        extend_chars(&mut v, &u64_text(secs % 60));
    }
    extend_str(&mut v, "s");
    string_of(&v)
}

/// Why no tasks were selected.
#[derive(Debug, Clone, PartialEq, Eq)]
pub enum FilterError {
    /// No task has the requested id; the available ids, comma-separated.
    TaskNotFound { id: String, available: String },
    /// No task has the requested category.
    NoTasksForCategory(String),
    /// No task has the requested language.
    NoTasksForLanguage(String),
    /// None of `--all`, `--task`, `--category`, `--language` was given.
    NoSelection,
}

/// The positions of the tasks for which `keep` holds, in order.
pub open spec fn matching(tasks: Seq<TaskMeta>, keep: spec_fn(TaskMeta) -> bool) -> Seq<int>
    decreases tasks.len(),
{
    if tasks.len() == 0 {
        Seq::empty()
    } else {
        let m = matching(tasks.drop_last(), keep);
        if keep(tasks.last()) {
            m.push(tasks.len() - 1)
        } else {
            m
        }
    }
}

/// A task's id (0), category (1) or language (2).
pub open spec fn field_of(t: TaskMeta, field: u8) -> Seq<char> {
    if field == 0 {
        t.id@
    } else if field == 1 {
        t.category@
    } else {
        t.language@
    }
}

/// The tasks whose chosen field equals `want`.
pub open spec fn field_is(field: u8, want: Seq<char>) -> spec_fn(TaskMeta) -> bool {
    |t: TaskMeta| field_of(t, field) == want
}

/// The ids of the tasks joined by `, `.
pub open spec fn joined_ids(tasks: Seq<TaskMeta>) -> Seq<char>
    decreases tasks.len(),
{
    if tasks.len() == 0 {
        Seq::empty()
    } else if tasks.len() == 1 {
        tasks[0].id@
    } else {
        joined_ids(tasks.drop_last()) + ", "@ + tasks.last().id@
    }
}

/// The task selection of a `run`: all tasks with `--all`; else those with
/// the id, category or language given (the first of these options that is
/// present decides), and an error when none matches or none was given.
pub open spec fn spec_filter_tasks(tasks: Seq<TaskMeta>, args: RunArgs) -> Result<Seq<int>, FilterError> {
    if args.all {
        Ok(Seq::new(tasks.len(), |i: int| i))
    } else if args.task is Some {
        let id = args.task.unwrap()@;
        let m = matching(tasks, field_is(0, id));
        if m.len() == 0 {
            Err(FilterError::TaskNotFound { id: args.task.unwrap(), available: arbitrary() })
        } else {
            Ok(m)
        }
    } else if args.category is Some {
        let c = args.category.unwrap()@;
        let m = matching(tasks, field_is(1, c));
        if m.len() == 0 {
            Err(FilterError::NoTasksForCategory(args.category.unwrap()))
        } else {
            Ok(m)
        }
    } else if args.language is Some {
        let l = args.language.unwrap()@;
        let m = matching(tasks, field_is(2, l));
        if m.len() == 0 {
            Err(FilterError::NoTasksForLanguage(args.language.unwrap()))
        } else {
            Ok(m)
        }
    } else {
        Err(FilterError::NoSelection)
    }
}

/// The positions of the tasks whose chosen field equals `want`.
fn positions_where(tasks: &[TaskMeta], field: u8, want: &String) -> (r: Vec<usize>)
    requires
        field < 3,
    ensures
        r@.map_values(|i: usize| i as int) == matching(tasks@, field_is(field, want@)),
{
    let ghost keep = field_is(field, want@);
    let mut out: Vec<usize> = Vec::new();
    let mut i: usize = 0;
    while i < tasks.len()
        invariant
            i <= tasks@.len(),
            keep == field_is(field, want@),
            out@.map_values(|i: usize| i as int) == matching(tasks@.take(i as int), keep),
        decreases tasks.len() - i,
    {
        let t = &tasks[i];
        let hit = if field == 0 {
            t.id == *want
        } else if field == 1 {
            t.category == *want
        } else {
            t.language == *want
        };
        proof {
            assert(tasks@.take(i + 1).drop_last() =~= tasks@.take(i as int));
            assert(tasks@.take(i + 1).last() == *t);
        }
        if hit {
            let ghost before = out@;
            out.push(i);
            assert(out@.map_values(|i: usize| i as int) =~= before.map_values(|i: usize| i as int).push(
                i as int,
            ));
        }
        i = i + 1;
    }
    assert(tasks@.take(tasks@.len() as int) =~= tasks@);
    out
}

/// The ids of the tasks, comma-separated.
fn join_ids(tasks: &[TaskMeta]) -> (r: String)
    ensures
        r@ == joined_ids(tasks@),
{
    let mut v: Vec<char> = Vec::new();
    let mut i: usize = 0;
    while i < tasks.len()
        invariant
            i <= tasks@.len(),
            v@ == joined_ids(tasks@.take(i as int)),
        decreases tasks.len() - i,
    {
        proof {
            assert(tasks@.take(i + 1).drop_last() =~= tasks@.take(i as int));
            assert(tasks@.take(i + 1).last() == tasks@[i as int]);
        }
        if i > 0 {
            extend_str(&mut v, ", ");
        } else {
            assert(tasks@.take(1) =~= seq![tasks@[0]]);
        }
        extend_str(&mut v, tasks[i].id.as_str());
        i = i + 1;
    }
    assert(tasks@.take(tasks@.len() as int) =~= tasks@);
    string_of(&v)
}

/// Filter tasks based on CLI arguments; returns the positions of the
/// selected tasks.
pub fn filter_tasks(tasks: &[TaskMeta], args: &RunArgs) -> (r: Result<Vec<usize>, FilterError>)
    ensures
        match (r, spec_filter_tasks(tasks@, *args)) {
            (Ok(v), Ok(s)) => v@.map_values(|i: usize| i as int) == s,
            (Err(FilterError::TaskNotFound { id, available }), Err(FilterError::TaskNotFound { id: id2, .. })) => {
                id == id2 && available@ == joined_ids(tasks@)
            },
            (Err(e), Err(e2)) => e == e2,
            _ => false,
        },
{
    if args.all {
        let mut out: Vec<usize> = Vec::new();
        let mut i: usize = 0;
        while i < tasks.len()
            invariant
                i <= tasks@.len(),
                out@.map_values(|i: usize| i as int) =~= Seq::new(i as nat, |k: int| k),
            decreases tasks.len() - i,
        {
            let ghost before = out@;
            out.push(i);
            assert(out@.map_values(|i: usize| i as int) =~= before.map_values(|i: usize| i as int).push(
                i as int,
            ));
            i = i + 1;
        }
        return Ok(out);
    }
    match &args.task {
        Some(id) => {
            let m = positions_where(tasks, 0, id);
            if m.len() == 0 {
                return Err(FilterError::TaskNotFound { id: id.clone(), available: join_ids(tasks) });
            }
            return Ok(m);
        },
        None => {},
    }
    match &args.category {
        Some(c) => {
            let m = positions_where(tasks, 1, c);
            if m.len() == 0 {
                return Err(FilterError::NoTasksForCategory(c.clone()));
            }
            return Ok(m);
        },
        None => {},
    }
    match &args.language {
        Some(l) => {
            let m = positions_where(tasks, 2, l);
            if m.len() == 0 {
                return Err(FilterError::NoTasksForLanguage(l.clone()));
            }
            return Ok(m);
        },
        None => {},
    }
    Err(FilterError::NoSelection)
}

/// Why `prepare` has no tasks to prepare.
#[derive(Debug, Clone, Copy, PartialEq, Eq, Structural)]
pub enum PrepareSelectError {
    /// None of `--all`, `--task`, `--language` was given.
    NoSelection,
    /// The selection matched no task.
    NoMatch,
}

/// The tasks `prepare` works on: all with `--all`; else those with the id
/// given, else those with the language given; an error when none of these
/// was given or nothing matched.
pub open spec fn spec_prepare_tasks(tasks: Seq<TaskMeta>, args: PrepareArgs) -> Result<Seq<int>, PrepareSelectError> {
    let chosen = if args.all {
        Some(Seq::new(tasks.len(), |i: int| i))
    } else if args.task is Some {
        Some(matching(tasks, field_is(0, args.task.unwrap()@)))
    } else if args.language is Some {
        Some(matching(tasks, field_is(2, args.language.unwrap()@)))
    } else {
        None
    };
    match chosen {
        None => Err(PrepareSelectError::NoSelection),
        Some(m) => if m.len() == 0 {
            Err(PrepareSelectError::NoMatch)
        } else {
            Ok(m)
        },
    }
}

/// Select the tasks `prepare` works on; returns their positions.
pub fn prepare_tasks(tasks: &[TaskMeta], args: &PrepareArgs) -> (r: Result<Vec<usize>, PrepareSelectError>)
    ensures
        match (r, spec_prepare_tasks(tasks@, *args)) {
            (Ok(v), Ok(s)) => v@.map_values(|i: usize| i as int) == s,
            (Err(e), Err(e2)) => e == e2,
            _ => false,
        },
{
    let m = if args.all {
        let mut out: Vec<usize> = Vec::new();
        let mut i: usize = 0;
        while i < tasks.len()
            invariant
                i <= tasks@.len(),
                out@.map_values(|i: usize| i as int) =~= Seq::new(i as nat, |k: int| k),
            decreases tasks.len() - i,
        {
            let ghost before = out@;
            out.push(i);
            assert(out@.map_values(|i: usize| i as int) =~= before.map_values(|i: usize| i as int).push(
                i as int,
            ));
            i = i + 1;
        }
        out
    } else {
        match &args.task {
            Some(id) => positions_where(tasks, 0, id),
            None => match &args.language {
                Some(l) => positions_where(tasks, 2, l),
                None => return Err(PrepareSelectError::NoSelection),
            },
        }
    };
    if m.len() == 0 {
        return Err(PrepareSelectError::NoMatch);
    }
    Ok(m)
}

/// The suffixes that name a run condition, longest first.
pub open spec fn condition_suffixes() -> Seq<Seq<char>> {
    seq!["-with-scope-preloaded"@, "-without-scope"@, "-with-scope"@]
}

/// The task id of a prepared directory: the name up to the first
/// occurrence of the first condition suffix (in the order above) that it
/// contains.
pub open spec fn spec_extract_task_id(dir_name: Seq<char>) -> Option<Seq<char>> {
    let s = condition_suffixes();
    if find_seq(dir_name, s[0]) is Some {
        Some(dir_name.take(find_seq(dir_name, s[0]).unwrap()))
    } else if find_seq(dir_name, s[1]) is Some {
        Some(dir_name.take(find_seq(dir_name, s[1]).unwrap()))
    } else if find_seq(dir_name, s[2]) is Some {
        Some(dir_name.take(find_seq(dir_name, s[2]).unwrap()))
    } else {
        None
    }
}

/// Extract task ID from a prepared directory name.
///
/// Directory names look like "ts-cat-a-01-with-scope", "cs-cat-b-01-without-scope",
/// or "ts-cat-a-01-with-scope-preloaded".
/// The task ID is everything before the condition suffix.
pub fn extract_task_id_from_dir_name(dir_name: &str) -> (r: Option<String>)
    ensures
        match r {
            Some(s) => spec_extract_task_id(dir_name@) == Some(s@),
            None => spec_extract_task_id(dir_name@) is None,
        },
{
    let d = chars_of(dir_name);
    let suffixes: [&str; 3] = ["-with-scope-preloaded", "-without-scope", "-with-scope"];
    assert(suffixes@[0]@ == condition_suffixes()[0]);
    assert(suffixes@[1]@ == condition_suffixes()[1]);
    assert(suffixes@[2]@ == condition_suffixes()[2]);
    let mut k: usize = 0;
    while k < 3
        invariant
            k <= 3,
            d@ == dir_name@,
            suffixes@.len() == 3,
            forall|j: int| 0 <= j < 3 ==> #[trigger] suffixes@[j]@ == condition_suffixes()[j],
            forall|j: int| 0 <= j < k ==> find_seq(d@, #[trigger] condition_suffixes()[j]) is None,
        decreases 3 - k,
    {
        let suffix = chars_of(suffixes[k]);
        match find_exec(&d, &suffix) {
            Some(idx) => {
                proof {
                    crate::text::lemma_find_from(d@, suffix@, 0);
                }
                let id = slice_chars(&d, 0, idx);
                assert(id@ =~= d@.take(idx as int));
                return Some(string_of(&id));
            },
            None => {},
        }
        k = k + 1;
    }
    None
}

/// The name of a prepared working directory: the task id, `-`, and the
/// condition label.
pub open spec fn spec_work_dir_name(task_id: Seq<char>, condition: Seq<char>) -> Seq<char> {
    task_id + "-"@ + condition
}

/// Name the working directory prepared for a task under a condition.
pub fn work_dir_name(task_id: &str, condition: &str) -> (r: String)
    ensures
        r@ == spec_work_dir_name(task_id@, condition@),
{
    let mut v = chars_of(task_id);
    extend_str(&mut v, "-");
    extend_str(&mut v, condition);
    string_of(&v)
}

/// A pattern whose only `-w` is at its start and which does not end in `-`.
pub open spec fn dash_w_only_at_start(pat: Seq<char>) -> bool {
    &&& pat.len() >= 2
    &&& pat[pat.len() - 1] != '-'
    &&& forall|l: int| 1 <= l < pat.len() - 1 ==> !(#[trigger] pat[l] == '-' && pat[l + 1] == 'w')
}

/// The condition suffixes have no `-w` but at their start.
proof fn lemma_suffixes_dash_w()
    ensures
        forall|k: int| 0 <= k < 3 ==> dash_w_only_at_start(#[trigger] condition_suffixes()[k]),
{
    reveal_strlit("-with-scope-preloaded");
    reveal_strlit("-without-scope");
    reveal_strlit("-with-scope");
    let s = condition_suffixes();
    assert(dash_w_only_at_start(s[0]));
    assert(dash_w_only_at_start(s[1]));
    assert(dash_w_only_at_start(s[2]));
}

/// In `a` followed by a tail starting with `-w`, a pattern whose only `-w`
/// is at its start occurs before the tail only inside `a`.
proof fn lemma_no_straddle(a: Seq<char>, b: Seq<char>, pat: Seq<char>, p: int)
    requires
        b.len() >= 2,
        b[0] == '-',
        b[1] == 'w',
        dash_w_only_at_start(pat),
        occurs_at(a + b, pat, p),
        p < a.len(),
    ensures
        p + pat.len() <= a.len(),
        occurs_at(a, pat, p),
{
    let d = a + b;
    if p + pat.len() > a.len() {
        let l = a.len() - p;
        assert(d.subrange(p, p + pat.len())[l] == d[a.len() as int]);
        assert(d[a.len() as int] == b[0]);
        if l + 1 < pat.len() {
            assert(d.subrange(p, p + pat.len())[l + 1] == d[a.len() + 1int]);
            assert(d[a.len() + 1int] == b[1]);
            assert(pat[l] == '-' && pat[l + 1] == 'w');
        } else {
            assert(pat[pat.len() - 1] == '-');
        }
    }
    assert(a.subrange(p, p + pat.len()) =~= d.subrange(p, p + pat.len()));
}

/// A pattern longer than the `-w` tail after `a`, and absent from `a`, is
/// not found in `a` followed by the tail.
proof fn lemma_absent_before_tail(a: Seq<char>, tail: Seq<char>, pat: Seq<char>)
    requires
        tail.len() >= 2,
        tail[0] == '-',
        tail[1] == 'w',
        dash_w_only_at_start(pat),
        !contains_seq(a, pat),
        pat.len() > tail.len(),
    ensures
        find_seq(a + tail, pat) is None,
{
    lemma_find_from(a + tail, pat, 0);
    if find_seq(a + tail, pat) is Some {
        let p = find_seq(a + tail, pat).unwrap();
        if p < a.len() {
            lemma_no_straddle(a, tail, pat, p);
        }
    }
}

/// A `-w` pattern absent from `a` is first found right after `a` in `a`
/// followed by the pattern.
proof fn lemma_found_after(a: Seq<char>, pat: Seq<char>)
    requires
        pat[0] == '-',
        pat[1] == 'w',
        dash_w_only_at_start(pat),
        !contains_seq(a, pat),
    ensures
        find_seq(a + pat, pat) == Some(a.len() as int),
{
    let d = a + pat;
    lemma_find_from(d, pat, 0);
    assert(d.subrange(a.len() as int, a.len() + pat.len() as int) =~= pat);
    assert(occurs_at(d, pat, a.len() as int));
    let p = find_seq(d, pat).unwrap();
    if p < a.len() {
        lemma_no_straddle(a, pat, pat, p);
    }
}

/// A prepared directory's name gives back its task id, unless the task id
/// itself holds one of the condition suffixes that the lookup tries before
/// (or at) the one its condition ends in.
#[verifier::spinoff_prover]
pub proof fn lemma_work_dir_name_gives_task_id(task_id: Seq<char>, k: int)
    requires
        0 <= k < 3,
        forall|j: int| 0 <= j <= k ==> !contains_seq(task_id, #[trigger] condition_suffixes()[j]),
    ensures
        spec_extract_task_id(spec_work_dir_name(task_id, condition_suffixes()[k].drop_first()))
            == Some(task_id),
{
    let s = condition_suffixes();
    reveal_strlit("-with-scope-preloaded");
    reveal_strlit("-without-scope");
    reveal_strlit("-with-scope");
    reveal_strlit("-");
    lemma_suffixes_dash_w();
    let d = spec_work_dir_name(task_id, s[k].drop_first());
    assert(d =~= task_id + s[k]);
    assert(!contains_seq(task_id, s[k]));
    lemma_found_after(task_id, s[k]);
    if k >= 1 {
        assert(!contains_seq(task_id, s[0]));
        lemma_absent_before_tail(task_id, s[k], s[0]);
    }
    if k == 2 {
        assert(!contains_seq(task_id, s[1]));
        lemma_absent_before_tail(task_id, s[k], s[1]);
    }
    assert(d.take(task_id.len() as int) =~= task_id);
}

} // verus!

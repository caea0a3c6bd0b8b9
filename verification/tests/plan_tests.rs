use scope::bench::agent::{agent_args, agent_run, tool_call_counts, AgentAction, NdjsonParseResult};
use scope::bench::checks::{base_score, compile_command, parse_diff_modifications, test_command, CallerLocationError};
use scope::bench::cli::{PrepareArgs, RunArgs};
use scope::bench::plan::{
    corpus_candidates, ndjson_dir, ndjson_file_name, pending_jobs, plan_jobs, prepare_conditions,
    resume_key, run_conditions,
};
use scope::bench::task::{validate_task, PromptDef, TaskError, TaskMeta};

fn strings(v: &[&str]) -> Vec<String> {
    v.iter().map(|s| s.to_string()).collect()
}

fn run_args(conditions: u32, compare: bool, no_scope: bool) -> RunArgs {
    RunArgs {
        all: true,
        task: None,
        category: None,
        language: None,
        reps: 1,
        compare,
        no_scope,
        scope_only: false,
        model: None,
        conditions,
        save_ndjson: None,
        output_dir: None,
        parallel: 1,
        resume: false,
    }
}

fn labels(c: &[(String, bool)]) -> Vec<(&str, bool)> {
    c.iter().map(|(l, s)| (l.as_str(), *s)).collect()
}

#[test]
fn run_conditions_follow_the_flags() {
    assert_eq!(labels(&run_conditions(&run_args(1, false, false))), vec![("with-scope", true)]);
    assert_eq!(labels(&run_conditions(&run_args(1, false, true))), vec![("without-scope", false)]);
    assert_eq!(
        labels(&run_conditions(&run_args(1, true, false))),
        vec![("with-scope", true), ("without-scope", false)]
    );
    assert_eq!(
        labels(&run_conditions(&run_args(2, false, false))),
        vec![("with-scope", true), ("without-scope", false)]
    );
    assert_eq!(
        labels(&run_conditions(&run_args(3, false, false))),
        vec![("without-scope", false), ("with-scope", true), ("with-scope-preloaded", true)]
    );
    assert_eq!(run_conditions(&run_args(4, false, true)).len(), 4);
    assert_eq!(run_conditions(&run_args(4, false, true))[3].0, "with-mcp");
}

#[test]
fn prepare_conditions_ignore_no_scope() {
    let args = PrepareArgs {
        all: true,
        task: None,
        language: None,
        compare: false,
        conditions: 1,
        output_dir: None,
    };
    assert_eq!(labels(&prepare_conditions(&args)), vec![("with-scope", true)]);
}

#[test]
fn ndjson_directory() {
    let mut a = run_args(1, false, false);
    assert_eq!(ndjson_dir(&a), None);
    a.output_dir = Some("results".to_string());
    assert_eq!(ndjson_dir(&a).as_deref(), Some("results/ndjson"));
    a.save_ndjson = Some("raw".to_string());
    assert_eq!(ndjson_dir(&a).as_deref(), Some("raw"));
}

#[test]
fn jobs_are_planned_task_by_task_then_rep_then_condition() {
    let conds = vec![("with-scope".to_string(), true), ("without-scope".to_string(), false)];
    let jobs = plan_jobs(2, 2, &conds);
    let order: Vec<(usize, u32, &str)> = jobs.iter().map(|j| (j.task_index, j.rep, j.condition.as_str())).collect();
    assert_eq!(
        order,
        vec![
            (0, 1, "with-scope"),
            (0, 1, "without-scope"),
            (0, 2, "with-scope"),
            (0, 2, "without-scope"),
            (1, 1, "with-scope"),
            (1, 1, "without-scope"),
            (1, 2, "with-scope"),
            (1, 2, "without-scope"),
        ]
    );
    assert!(!jobs[1].scope_enabled);
}

#[test]
fn run_file_names_and_keys() {
    assert_eq!(ndjson_file_name("ts-cat-a-01", "with-scope", 2), "ts-cat-a-01-with-scope-rep2.ndjson");
    assert_eq!(resume_key("ts-cat-a-01", "with-scope", 12), "ts-cat-a-01|with-scope|12");
}

#[test]
fn resumed_runs_skip_completed_jobs() {
    let conds = vec![("with-scope".to_string(), true), ("without-scope".to_string(), false)];
    let jobs = plan_jobs(2, 1, &conds);
    let ids = strings(&["t1", "t2"]);
    let done = strings(&["t1|with-scope|1", "t2|without-scope|1"]);
    let left = pending_jobs(jobs, &ids, &done);
    let order: Vec<(usize, &str)> = left.iter().map(|j| (j.task_index, j.condition.as_str())).collect();
    assert_eq!(order, vec![(0, "without-scope"), (1, "with-scope")]);
}

#[test]
fn corpus_directories_tried() {
    assert_eq!(
        corpus_candidates("fixture", "typescript"),
        strings(&[
            "benchmarks/fixtures/typescript-large",
            "../fixtures/typescript-large",
            "../../benchmarks/fixtures/typescript-large",
            "benchmarks/fixtures/typescript-api",
            "../fixtures/typescript-api",
            "../../benchmarks/fixtures/typescript-api",
        ])
    );
    assert_eq!(
        corpus_candidates("acme", "csharp"),
        strings(&["benchmarks/corpora/acme", "../corpora/acme", "../../benchmarks/corpora/acme"])
    );
}

#[test]
fn build_and_test_commands() {
    assert_eq!(compile_command("typescript"), Some(("npx".to_string(), strings(&["tsc", "--noEmit"]))));
    assert_eq!(compile_command("csharp"), Some(("dotnet".to_string(), strings(&["build", "--no-restore"]))));
    assert_eq!(compile_command("go"), None);
    assert_eq!(test_command("typescript"), Some(("npm".to_string(), strings(&["test"]))));
    assert_eq!(test_command("csharp"), Some(("dotnet".to_string(), strings(&["test", "--no-restore"]))));
    assert_eq!(test_command("rust"), None);
}

#[test]
fn test_score_calculation_without_caller_coverage() {
    assert_eq!(base_score(true, true, false), 100);
    assert_eq!(base_score(true, false, false), 50);
    assert_eq!(base_score(false, true, false), 50);
    assert_eq!(base_score(false, false, false), 0);
}

#[test]
fn score_with_coverage_leaves_room_for_coverage_points() {
    assert_eq!(base_score(true, true, true), 80);
    assert_eq!(base_score(false, true, true), 40);
}

fn action(tool: &str) -> AgentAction {
    AgentAction {
        sequence: 1,
        tool_name: tool.to_string(),
        arguments_summary: String::new(),
        is_navigation: false,
        is_scope_command: false,
        is_edit: false,
    }
}

#[test]
fn tool_calls_are_counted_by_kind() {
    let actions = vec![action("Edit"), action("Write"), action("Grep"), action("Bash"), action("Bash"), action("Read")];
    let c = tool_call_counts(&actions);
    assert_eq!(c.file_edits, 2);
    assert_eq!(c.grep_calls, 1);
    assert_eq!(c.glob_calls, 0);
    assert_eq!(c.bash_calls, 2);
}

#[test]
fn agent_arguments() {
    let with = agent_args("fix it", "/tmp/w", &None, true);
    assert_eq!(
        with,
        strings(&[
            "-p",
            "fix it",
            "--bare",
            "--add-dir",
            "/tmp/w",
            "--output-format",
            "stream-json",
            "--verbose",
            "--max-turns",
            "30",
            "--allowedTools",
            "Read,Edit,Write,Glob,Grep,Bash",
        ])
    );
    let without = agent_args("fix it", "/tmp/w", &Some("opus".to_string()), false);
    assert_eq!(&without[12..], &strings(&["--model", "opus", "--disallowedTools", "Bash(scope:*)"])[..]);
}

#[test]
fn agent_run_carries_the_parsed_stream() {
    let parsed = NdjsonParseResult {
        actions: vec![action("Edit"), action("Glob")],
        input_tokens: 10,
        output_tokens: 20,
        cache_creation_input_tokens: 1,
        cache_read_input_tokens: 2,
        scope_commands_called: strings(&["scope refs Foo"]),
        file_reads: 3,
    };
    let run = agent_run("t1".to_string(), true, parsed, 1500, 0);
    assert_eq!(run.task_id, "t1");
    assert_eq!(run.input_tokens, 10);
    assert_eq!(run.output_tokens, 20);
    assert_eq!(run.file_reads, 3);
    assert_eq!(run.file_edits, 1);
    assert_eq!(run.glob_calls, 1);
    assert_eq!(run.duration_ms, 1500);
    assert_eq!(run.scope_commands_called, strings(&["scope refs Foo"]));
}

#[test]
fn tasks_need_an_id_and_a_prompt() {
    let meta = TaskMeta {
        id: "ts-cat-a-01".to_string(),
        category: "cat-a".to_string(),
        language: "typescript".to_string(),
        corpus: "fixture".to_string(),
        description: "d".to_string(),
    };
    assert_eq!(validate_task(&meta, &PromptDef { text: "do it".to_string() }), Ok(()));
    assert_eq!(
        validate_task(&meta, &PromptDef { text: String::new() }),
        Err(TaskError::EmptyPrompt("ts-cat-a-01".to_string()))
    );
    let mut unnamed = meta.clone();
    unnamed.id = String::new();
    assert_eq!(validate_task(&unnamed, &PromptDef { text: "x".to_string() }), Err(TaskError::EmptyId));
}

#[test]
fn covered_callers_counted_within_context() {
    let diff = "+++ b/src/a.rs\n@@ -1,3 +10,3 @@\n context\n+added\n";
    let mods = parse_diff_modifications(diff);
    assert!(mods.is_line_modified("src/a.rs", 11, 0));
    let callers = vec!["src/a.rs:16".to_string(), "src/a.rs:17".to_string(), "src/b.rs:11".to_string()];
    assert_eq!(mods.count_covered_callers(&callers, 5), Ok(1));
    let bad = vec!["src/a.rs:11".to_string(), "nocolon".to_string(), "src/a.rs:x".to_string()];
    assert_eq!(mods.count_covered_callers(&bad, 5), Err(CallerLocationError::MissingColon("nocolon".to_string())));
    let bad_line = vec!["src/a.rs:x".to_string()];
    assert_eq!(
        mods.count_covered_callers(&bad_line, 5),
        Err(CallerLocationError::BadLineNumber("src/a.rs:x".to_string()))
    );
}

#[test]
fn resume_keys_tell_runs_apart() {
    assert_ne!(resume_key("t1", "with-scope", 1), resume_key("t1", "with-scope", 11));
    assert_ne!(resume_key("t1", "with-scope", 1), resume_key("t1", "without-scope", 1));
    assert_ne!(resume_key("t1", "with-scope", 1), resume_key("t11", "with-scope", 1));
    // Ids holding the separator can collide.
    assert_eq!(resume_key("a|b", "c", 1), resume_key("a", "b|c", 1));
}

#[test]
fn imported_runs_recover_condition_and_stream() {
    assert_eq!(scope::bench::plan::imported_condition("with-scope-preloaded", false), "with-scope-preloaded");
    assert_eq!(scope::bench::plan::imported_condition("", true), "with-scope");
    assert_eq!(scope::bench::plan::imported_condition("", false), "without-scope");
    assert_eq!(scope::bench::plan::stream_file_name("ts-cat-a-01", "with-scope"), "ts-cat-a-01-with-scope.ndjson");
}

use scope::bench::agent::AgentRun;
use scope::bench::trial::{telemetry_issues, trial_task, TrialTaskError};
use scope::bench::agent::{
    accumulate_events, extract_argument_summary, extract_scope_command, extract_tool_use_items,
    is_cuttable, is_edit_tool, is_navigation_tool, parse_ndjson_actions, stream_countable, stream_events_of,
    try_parse_ndjson_actions, AgentAction, ContentItem, StreamEvent, ToolInput, Usage,
};
use scope::bench::behavior::{
    compute_callers_and_refs_overlap, compute_grep_after_scope_find, compute_scope_then_read,
    extract_scope_subcommand,
};
use scope::bench::checks::{parse_caller_location, parse_diff_modifications, DiffModifications};
use scope::bench::cli::{
    extract_task_id_from_dir_name, filter_tasks, format_duration, work_dir_name, FilterError, RunArgs,
};
use scope::bench::report::task_category;
use scope::bench::task::TaskMeta;

#[test]
fn test_extract_scope_command_basic() {
    assert_eq!(
        extract_scope_command("scope sketch PaymentService"),
        Some("scope sketch".to_string())
    );
}

#[test]
fn test_extract_scope_command_chained() {
    assert_eq!(
        extract_scope_command("cd /tmp && scope refs processPayment --json"),
        Some("scope refs".to_string())
    );
}

#[test]
fn test_extract_scope_command_with_path() {
    assert_eq!(
        extract_scope_command("./node_modules/.bin/scope find foo"),
        Some("scope find".to_string())
    );
}

#[test]
fn test_extract_scope_command_no_match() {
    assert_eq!(extract_scope_command("echo hello world"), None);
}

#[test]
fn test_extract_scope_command_flag_only() {
    assert_eq!(extract_scope_command("scope --version"), None);
}

#[test]
fn test_extract_scope_command_callers() {
    assert_eq!(
        extract_scope_command("scope callers processPayment"),
        Some("scope callers".to_string())
    );
}

#[test]
fn test_is_navigation_tool() {
    assert!(is_navigation_tool("Read"));
    assert!(is_navigation_tool("Grep"));
    assert!(is_navigation_tool("Glob"));
    assert!(is_navigation_tool("Bash"));
    assert!(!is_navigation_tool("Edit"));
    assert!(!is_navigation_tool("Write"));
}

#[test]
fn test_is_edit_tool() {
    assert!(is_edit_tool("Edit"));
    assert!(is_edit_tool("Write"));
    assert!(!is_edit_tool("Read"));
    assert!(!is_edit_tool("Bash"));
}

fn input(file_path: Option<&str>, pattern: Option<&str>, command: Option<&str>, rendered: &str) -> ToolInput {
    ToolInput {
        file_path: file_path.map(|s| s.to_string()),
        pattern: pattern.map(|s| s.to_string()),
        command: command.map(|s| s.to_string()),
        rendered: rendered.to_string(),
    }
}

#[test]
fn test_extract_argument_summary_read() {
    let i = input(Some("src/main.rs"), None, None, "{\"file_path\":\"src/main.rs\"}");
    assert_eq!(extract_argument_summary("Read", &Some(i)), "src/main.rs");
}

#[test]
fn test_extract_argument_summary_bash_truncates() {
    let long_cmd = "a".repeat(200);
    let i = input(None, None, Some(&long_cmd), "");
    let summary = extract_argument_summary("Bash", &Some(i));
    assert_eq!(summary.len(), 103); // 100 chars + "..."
    assert!(summary.ends_with("..."));
}

#[test]
fn test_extract_argument_summary_grep() {
    let i = input(None, Some("processPayment"), None, "{\"pattern\":\"processPayment\"}");
    assert_eq!(extract_argument_summary("Grep", &Some(i)), "processPayment");
}

#[test]
fn argument_summary_of_unknown_tool_is_its_json() {
    let i = input(None, None, None, "{\"url\":\"x\"}");
    assert_eq!(extract_argument_summary("WebFetch", &Some(i)), "{\"url\":\"x\"}");
    assert_eq!(extract_argument_summary("Read", &None), "");
}

fn item(kind: &str, name: Option<&str>, i: Option<ToolInput>) -> ContentItem {
    ContentItem { item_type: Some(kind.to_string()), name: name.map(|s| s.to_string()), input: i }
}

fn event(kind: &str) -> StreamEvent {
    StreamEvent {
        event_type: Some(kind.to_string()),
        usage: None,
        result_usage: None,
        message_content: None,
        content_block: None,
    }
}

#[test]
fn test_extract_tool_use_items_assistant_message() {
    let mut e = event("assistant");
    e.message_content = Some(vec![
        item("tool_use", Some("Read"), Some(input(Some("foo.rs"), None, None, ""))),
        item("text", None, None),
        item("tool_use", Some("Grep"), Some(input(None, Some("bar"), None, ""))),
    ]);
    let items = extract_tool_use_items(&e);
    assert_eq!(items.len(), 2);
    assert_eq!(items[0].name.as_deref(), Some("Read"));
    assert_eq!(items[1].name.as_deref(), Some("Grep"));
}

#[test]
fn test_extract_tool_use_items_content_block_start() {
    let mut e = event("content_block_start");
    e.content_block = Some(item("tool_use", Some("Bash"), Some(input(None, None, Some("ls"), ""))));
    let items = extract_tool_use_items(&e);
    assert_eq!(items.len(), 1);
    assert_eq!(items[0].name.as_deref(), Some("Bash"));
}

#[test]
fn test_extract_tool_use_items_irrelevant_event() {
    let e = event("ping");
    let items = extract_tool_use_items(&e);
    assert!(items.is_empty());
}

#[test]
fn accumulate_events_counts_actions_and_usage() {
    let mut first = event("assistant");
    first.message_content = Some(vec![
        item("tool_use", Some("Read"), Some(input(Some("src/main.rs"), None, None, ""))),
        item("tool_use", Some("Bash"), Some(input(None, None, Some("scope sketch PaymentService"), ""))),
        item("tool_use", Some("Bash"), Some(input(None, None, Some("scope sketch Other"), ""))),
    ]);
    let mut second = StreamEvent {
        event_type: None,
        usage: None,
        result_usage: None,
        message_content: None,
        content_block: None,
    };
    second.usage = Some(Usage {
        input_tokens: Some(5000),
        output_tokens: Some(1000),
        cache_creation_input_tokens: Some(200),
        cache_read_input_tokens: Some(4000),
    });
    let mut third = event("result");
    third.result_usage = Some(Usage {
        input_tokens: Some(1),
        output_tokens: None,
        cache_creation_input_tokens: None,
        cache_read_input_tokens: None,
    });
    let result = accumulate_events(&vec![Some(first), None, Some(second), Some(third)]);
    assert_eq!(result.actions.len(), 3);
    assert_eq!(result.actions[0].tool_name, "Read");
    assert_eq!(result.actions[0].sequence, 1);
    assert!(result.actions[0].is_navigation);
    assert!(!result.actions[0].is_edit);
    assert_eq!(result.actions[1].sequence, 2);
    assert!(result.actions[1].is_scope_command);
    assert_eq!(result.input_tokens, 5001);
    assert_eq!(result.output_tokens, 1000);
    assert_eq!(result.cache_creation_input_tokens, 200);
    assert_eq!(result.cache_read_input_tokens, 4000);
    assert_eq!(result.file_reads, 1);
    assert_eq!(result.scope_commands_called, vec!["scope sketch".to_string()]);
}

#[test]
fn accumulate_events_of_nothing_is_empty() {
    let result = accumulate_events(&vec![None, None]);
    assert!(result.actions.is_empty());
    assert_eq!(result.input_tokens, 0);
    assert_eq!(result.file_reads, 0);
}

fn make_action(
    sequence: u32,
    tool_name: &str,
    arguments_summary: &str,
    is_navigation: bool,
    is_scope_command: bool,
    is_edit: bool,
) -> AgentAction {
    AgentAction {
        sequence,
        tool_name: tool_name.to_string(),
        arguments_summary: arguments_summary.to_string(),
        is_navigation,
        is_scope_command,
        is_edit,
    }
}

#[test]
fn test_grep_after_scope_find() {
    let actions = vec![
        make_action(1, "Bash", "scope find \"retry\"", true, true, false),
        make_action(2, "Read", "src/a.rs", true, false, false),
        make_action(3, "Grep", "retry", true, false, false),
    ];
    assert_eq!(compute_grep_after_scope_find(&actions), 1);
}

#[test]
fn test_grep_after_scope_find_too_far() {
    let actions = vec![
        make_action(1, "Bash", "scope find \"retry\"", true, true, false),
        make_action(2, "Read", "a.rs", true, false, false),
        make_action(3, "Read", "b.rs", true, false, false),
        make_action(4, "Read", "c.rs", true, false, false),
        make_action(5, "Grep", "retry", true, false, false),
    ];
    assert_eq!(compute_grep_after_scope_find(&actions), 0);
}

#[test]
fn test_callers_and_refs_same_symbol() {
    let actions = vec![
        make_action(1, "Bash", "scope callers PaymentService", true, true, false),
        make_action(2, "Bash", "scope refs PaymentService", true, true, false),
    ];
    assert!(compute_callers_and_refs_overlap(&actions));
}

#[test]
fn test_callers_and_refs_different_symbols() {
    let actions = vec![
        make_action(1, "Bash", "scope callers PaymentService", true, true, false),
        make_action(2, "Bash", "scope refs OrderService", true, true, false),
    ];
    assert!(!compute_callers_and_refs_overlap(&actions));
}

#[test]
fn test_scope_then_read_same_file() {
    let actions = vec![
        make_action(1, "Bash", "scope sketch PaymentService src/payment.rs", true, true, false),
        make_action(2, "Read", "src/payment.rs", true, false, false),
    ];
    assert_eq!(compute_scope_then_read(&actions), 1);
}

#[test]
fn scope_then_read_stops_at_an_edit() {
    let actions = vec![
        make_action(1, "Bash", "scope sketch PaymentService src/payment.rs", true, true, false),
        make_action(2, "Edit", "src/other.rs", false, false, true),
        make_action(3, "Read", "src/payment.rs", true, false, false),
    ];
    assert_eq!(compute_scope_then_read(&actions), 0);
}

#[test]
fn test_extract_scope_subcommand() {
    assert_eq!(
        extract_scope_subcommand("scope sketch PaymentService"),
        Some("scope sketch".to_string())
    );
    assert_eq!(
        extract_scope_subcommand("scope refs processPayment --json"),
        Some("scope refs".to_string())
    );
    assert_eq!(
        extract_scope_subcommand("scope find \"retry logic\""),
        Some("scope find".to_string())
    );
    assert_eq!(extract_scope_subcommand("grep something"), None);
    assert_eq!(
        extract_scope_subcommand("cd \"C:\\Users\\tmp\\.tmp123\" && scope find \"payment decline\""),
        Some("scope find".to_string())
    );
    assert_eq!(
        extract_scope_subcommand("cd /tmp/work && scope sketch PaymentService"),
        Some("scope sketch".to_string())
    );
}

#[test]
fn test_extract_task_id_with_scope() {
    assert_eq!(
        extract_task_id_from_dir_name("ts-cat-a-01-with-scope"),
        Some("ts-cat-a-01".to_string())
    );
}

#[test]
fn test_extract_task_id_without_scope() {
    assert_eq!(
        extract_task_id_from_dir_name("cs-cat-b-01-without-scope"),
        Some("cs-cat-b-01".to_string())
    );
}

#[test]
fn test_extract_task_id_unknown_format() {
    assert_eq!(extract_task_id_from_dir_name("random-dir-name"), None);
}

#[test]
fn test_extract_task_id_with_scope_preloaded() {
    assert_eq!(
        extract_task_id_from_dir_name("ts-cat-a-01-with-scope-preloaded"),
        Some("ts-cat-a-01".to_string())
    );
}

#[test]
fn format_duration_units() {
    assert_eq!(format_duration(0), "0s");
    assert_eq!(format_duration(59), "59s");
    assert_eq!(format_duration(61), "1m 1s");
    assert_eq!(format_duration(3600), "1h 0m 0s");
    assert_eq!(format_duration(3725), "1h 2m 5s");
}

#[test]
fn task_category_from_id() {
    assert_eq!(task_category("ts-cat-a-01"), "cat-a");
    assert_eq!(task_category("short-id"), "unknown");
}

fn meta(id: &str, category: &str, language: &str) -> TaskMeta {
    TaskMeta {
        id: id.to_string(),
        category: category.to_string(),
        language: language.to_string(),
        corpus: "fixture".to_string(),
        description: String::new(),
    }
}

fn run_args() -> RunArgs {
    RunArgs {
        all: false,
        task: None,
        category: None,
        language: None,
        reps: 3,
        compare: false,
        no_scope: false,
        scope_only: false,
        model: None,
        conditions: 1,
        save_ndjson: None,
        output_dir: None,
        parallel: 1,
        resume: false,
    }
}

#[test]
fn filter_tasks_selects_by_option() {
    let tasks = vec![
        meta("ts-cat-a-01", "cat-a", "typescript"),
        meta("cs-cat-b-01", "cat-b", "csharp"),
        meta("ts-cat-b-02", "cat-b", "typescript"),
    ];
    let mut args = run_args();
    args.all = true;
    assert_eq!(filter_tasks(&tasks, &args), Ok(vec![0, 1, 2]));
    let mut args = run_args();
    args.category = Some("cat-b".to_string());
    assert_eq!(filter_tasks(&tasks, &args), Ok(vec![1, 2]));
    let mut args = run_args();
    args.language = Some("typescript".to_string());
    assert_eq!(filter_tasks(&tasks, &args), Ok(vec![0, 2]));
    let mut args = run_args();
    args.task = Some("nope".to_string());
    assert_eq!(
        filter_tasks(&tasks, &args),
        Err(FilterError::TaskNotFound {
            id: "nope".to_string(),
            available: "ts-cat-a-01, cs-cat-b-01, ts-cat-b-02".to_string()
        })
    );
    assert_eq!(filter_tasks(&tasks, &run_args()), Err(FilterError::NoSelection));
}

#[test]
fn test_parse_diff_modifications_basic() {
    let diff = "\
diff --git a/src/foo.ts b/src/foo.ts
--- a/src/foo.ts
+++ b/src/foo.ts
@@ -10,3 +10,4 @@ function foo() {
     existing line
+    new line
     another line
";
    let mods = parse_diff_modifications(diff);
    assert!(mods.contains_key("src/foo.ts"));
    assert!(mods.contains_line("src/foo.ts", 11));
    assert!(!mods.contains_line("src/foo.ts", 10));
}

#[test]
fn test_parse_diff_modifications_multifile() {
    let diff = "\
diff --git a/src/a.ts b/src/a.ts
--- a/src/a.ts
+++ b/src/a.ts
@@ -5,2 +5,3 @@
     context
+    added in a
diff --git a/src/b.ts b/src/b.ts
--- a/src/b.ts
+++ b/src/b.ts
@@ -20,2 +20,3 @@
     context
+    added in b
";
    let mods = parse_diff_modifications(diff);
    assert_eq!(mods.len(), 2);
    assert!(mods.contains_key("src/a.ts"));
    assert!(mods.contains_key("src/b.ts"));
    assert!(mods.contains_line("src/a.ts", 6));
    assert!(mods.contains_line("src/b.ts", 21));
}

#[test]
fn test_parse_diff_modifications_empty() {
    let mods = parse_diff_modifications("");
    assert!(mods.is_empty());
}

#[test]
fn test_is_line_modified_within_context() {
    let mut mods = DiffModifications::new();
    mods.insert("src/foo.ts".to_string(), 50);
    assert!(mods.is_line_modified("src/foo.ts", 48, 5));
    assert!(mods.is_line_modified("src/foo.ts", 55, 5));
    assert!(mods.is_line_modified("src/foo.ts", 50, 5));
}

#[test]
fn test_is_line_modified_outside_context() {
    let mut mods = DiffModifications::new();
    mods.insert("src/foo.ts".to_string(), 50);
    assert!(!mods.is_line_modified("src/foo.ts", 60, 5));
    assert!(!mods.is_line_modified("src/foo.ts", 40, 5));
    assert!(!mods.is_line_modified("other.ts", 50, 5));
}

#[test]
fn test_parse_caller_location() {
    let (file, line) = parse_caller_location("src/Api/Controllers/PaymentController.cs:45").unwrap();
    assert_eq!(file, "src/Api/Controllers/PaymentController.cs");
    assert_eq!(line, 45);
}

#[test]
fn test_parse_caller_location_invalid() {
    assert!(parse_caller_location("no-colon").is_err());
    assert!(parse_caller_location("file:notanumber").is_err());
}

#[test]
fn work_dir_names_give_back_task_ids() {
    for cond in ["without-scope", "with-scope", "with-scope-preloaded"] {
        let name = work_dir_name("ts-cat-a-01", cond);
        assert_eq!(name, format!("ts-cat-a-01-{}", cond));
        assert_eq!(extract_task_id_from_dir_name(&name), Some("ts-cat-a-01".to_string()));
    }
    // A task id holding an earlier-tried suffix is cut short.
    assert_eq!(
        extract_task_id_from_dir_name(&work_dir_name("x-with-scope-preloaded", "with-scope")),
        Some("x".to_string())
    );
    // One holding only a later-tried suffix is not.
    assert_eq!(
        extract_task_id_from_dir_name(&work_dir_name("x-with-scope", "with-scope-preloaded")),
        Some("x-with-scope".to_string())
    );
}

#[test]
fn trial_task_by_id_language_or_default() {
    let tasks = vec![meta("cs-cat-b-01", "b", "csharp"), meta("ts-cat-a-01", "a", "typescript"), meta("ts-cat-a-02", "a", "typescript")];
    assert_eq!(trial_task(&tasks, &Some("ts-cat-a-02".to_string()), &None), Ok(2));
    assert_eq!(
        trial_task(&tasks, &Some("nope".to_string()), &Some("csharp".to_string())),
        Err(TrialTaskError::TaskNotFound("nope".to_string()))
    );
    assert_eq!(trial_task(&tasks, &None, &Some("typescript".to_string())), Ok(1));
    assert_eq!(
        trial_task(&tasks, &None, &Some("go".to_string())),
        Err(TrialTaskError::NoTasksForLanguage("go".to_string()))
    );
    assert_eq!(trial_task(&tasks, &None, &None), Ok(1));
    assert_eq!(trial_task(&tasks[..1], &None, &None), Ok(0));
    assert_eq!(trial_task(&[], &None, &None), Err(TrialTaskError::NoTasks));
}

#[test]
fn telemetry_issues_listed_in_order() {
    let mut run = AgentRun {
        task_id: "t".to_string(),
        scope_enabled: true,
        input_tokens: 0,
        output_tokens: 0,
        cache_creation_input_tokens: 0,
        cache_read_input_tokens: 0,
        file_reads: 0,
        file_edits: 0,
        grep_calls: 0,
        glob_calls: 0,
        bash_calls: 0,
        scope_commands_called: vec![],
        duration_ms: 0,
        exit_code: 0,
        actions: vec![],
    };
    assert_eq!(
        telemetry_issues(&run, true, None),
        vec![
            "input_tokens = 0",
            "output_tokens = 0",
            "actions[] is empty",
            "file_reads = 0",
            "scope_commands_called is empty (agent may not have used scope)",
            "NDJSON file was not saved",
        ]
    );
    assert_eq!(telemetry_issues(&run, false, Some(0)).last().map(|s| s.as_str()), Some("NDJSON file is empty"));
    run.input_tokens = 5;
    run.output_tokens = 6;
    run.file_reads = 1;
    run.actions.push(AgentAction {
        sequence: 1,
        tool_name: "Read".to_string(),
        arguments_summary: "a.ts".to_string(),
        is_navigation: true,
        is_scope_command: false,
        is_edit: false,
    });
    run.scope_commands_called.push("scope sketch".to_string());
    assert!(telemetry_issues(&run, true, Some(10)).is_empty());
}

#[test]
fn test_parse_ndjson_actions_empty() {
    let result = parse_ndjson_actions("");
    assert!(result.actions.is_empty());
    assert_eq!(result.input_tokens, 0);
    assert_eq!(result.output_tokens, 0);
    assert_eq!(result.file_reads, 0);
}

#[test]
fn test_parse_ndjson_actions_basic() {
    let ndjson = r#"{"type":"assistant","message":{"content":[{"type":"tool_use","name":"Read","input":{"file_path":"src/main.rs"}},{"type":"tool_use","name":"Bash","input":{"command":"scope sketch PaymentService"}}]}}
{"usage":{"input_tokens":5000,"output_tokens":1000,"cache_creation_input_tokens":200,"cache_read_input_tokens":4000}}"#;

    let result = parse_ndjson_actions(ndjson);
    assert_eq!(result.actions.len(), 2);
    assert_eq!(result.actions[0].tool_name, "Read");
    assert_eq!(result.actions[0].sequence, 1);
    assert!(result.actions[0].is_navigation);
    assert!(!result.actions[0].is_edit);
    assert_eq!(result.actions[1].tool_name, "Bash");
    assert!(result.actions[1].is_scope_command);
    assert_eq!(result.input_tokens, 5000);
    assert_eq!(result.output_tokens, 1000);
    assert_eq!(result.cache_creation_input_tokens, 200);
    assert_eq!(result.cache_read_input_tokens, 4000);
    assert_eq!(result.file_reads, 1);
    assert_eq!(result.scope_commands_called, vec!["scope sketch".to_string()]);
}

#[test]
fn test_parse_ndjson_actions_with_malformed_lines() {
    let ndjson = "not json\n{\"usage\":{\"input_tokens\":100,\"output_tokens\":50}}\n\n";
    let result = parse_ndjson_actions(ndjson);
    assert!(result.actions.is_empty());
    assert_eq!(result.input_tokens, 100);
    assert_eq!(result.output_tokens, 50);
}

#[test]
fn ndjson_events_results_blocks_and_rendered_input() {
    let ndjson = [
        "  ",
        "{\"type\":\"result\",\"result\":{\"usage\":{\"input_tokens\":7,\"output_tokens\":-1}}}",
        "{\"type\":\"content_block_start\",\"content_block\":{\"type\":\"tool_use\",\"name\":\"Task\",\"input\":{\"b\":2,\"a\":\"x\"}}}",
        "[1,2]",
    ]
    .join("\n");
    let ndjson = ndjson.as_str();
    let events = stream_events_of(ndjson);
    assert_eq!(events.len(), 3);
    assert!(events[2].is_some());
    let result = parse_ndjson_actions(ndjson);
    assert_eq!(result.input_tokens, 7);
    assert_eq!(result.output_tokens, 0);
    assert_eq!(result.actions.len(), 1);
    assert_eq!(result.actions[0].tool_name, "Task");
    assert_eq!(result.actions[0].arguments_summary, "{\"a\":\"x\",\"b\":2}");
    assert!(!result.actions[0].is_navigation);
}

#[test]
fn ndjson_that_cannot_be_added_up_is_refused() {
    let big = format!("{{\"usage\":{{\"input_tokens\":{}}}}}\n{{\"usage\":{{\"input_tokens\":1}}}}", u64::MAX);
    assert!(try_parse_ndjson_actions(&big).is_none());
    assert!(!stream_countable(&stream_events_of(&big)));
    let long = format!("{}é{}", "a".repeat(99), "b".repeat(10));
    assert!(!is_cuttable(&long));
    assert!(is_cuttable(&"a".repeat(150)));
    assert!(is_cuttable("short"));
    let bad = format!(
        "{{\"type\":\"assistant\",\"message\":{{\"content\":[{{\"type\":\"tool_use\",\"name\":\"Bash\",\"input\":{{\"command\":\"{}\"}}}}]}}}}",
        long
    );
    assert!(try_parse_ndjson_actions(&bad).is_none());
    assert!(try_parse_ndjson_actions("{\"usage\":{\"input_tokens\":3}}").is_some());
}

#[test]
fn ndjson_tally_numbers_actions_and_lists_scope_commands_once() {
    let line = r#"{"type":"assistant","message":{"content":[{"type":"tool_use","name":"Bash","input":{"command":"scope refs a"}},{"type":"tool_use","name":"Read","input":{"file_path":"x"}},{"type":"tool_use","name":"Bash","input":{"command":"scope refs b"}},{"type":"tool_use","name":"Edit","input":{"file_path":"x"}}]}}"#;
    let result = parse_ndjson_actions(line);
    let seqs: Vec<u32> = result.actions.iter().map(|a| a.sequence).collect();
    assert_eq!(seqs, vec![1, 2, 3, 4]);
    assert_eq!(result.scope_commands_called, vec!["scope refs".to_string()]);
    assert_eq!(result.file_reads, 1);
    assert!(result.actions[3].is_edit && !result.actions[3].is_navigation);
    assert!(result.actions.iter().all(|a| !a.is_scope_command || a.tool_name == "Bash"));
}

#[test]
fn diff_without_added_lines_records_nothing() {
    assert!(parse_diff_modifications("").is_empty());
    let removed_only = "+++ b/src/a.ts\n@@ -1,2 +1,1 @@\n-gone\n context\n";
    assert!(parse_diff_modifications(removed_only).is_empty());
    let added = "+++ b/src/a.ts\n@@ -1,1 +1,2 @@\n context\n+new\n";
    let mods = parse_diff_modifications(added);
    assert_eq!(mods.len(), 1);
    assert!(mods.contains_key("src/a.ts"));
}

#[test]
fn prepare_selects_all_id_or_language() {
    let tasks = vec![meta("ts-cat-a-01", "a", "typescript"), meta("cs-cat-b-01", "b", "csharp"), meta("ts-cat-b-02", "b", "typescript")];
    let args = |all: bool, task: Option<&str>, language: Option<&str>| scope::bench::cli::PrepareArgs {
        all,
        task: task.map(String::from),
        language: language.map(String::from),
        compare: false,
        conditions: 1,
        output_dir: None,
    };
    assert_eq!(scope::bench::cli::prepare_tasks(&tasks, &args(true, Some("x"), None)), Ok(vec![0, 1, 2]));
    assert_eq!(scope::bench::cli::prepare_tasks(&tasks, &args(false, Some("cs-cat-b-01"), Some("typescript"))), Ok(vec![1]));
    assert_eq!(scope::bench::cli::prepare_tasks(&tasks, &args(false, None, Some("typescript"))), Ok(vec![0, 2]));
    assert_eq!(
        scope::bench::cli::prepare_tasks(&tasks, &args(false, Some("nope"), None)),
        Err(scope::bench::cli::PrepareSelectError::NoMatch)
    );
    assert_eq!(
        scope::bench::cli::prepare_tasks(&tasks, &args(false, None, None)),
        Err(scope::bench::cli::PrepareSelectError::NoSelection)
    );
    assert_eq!(
        scope::bench::cli::prepare_tasks(&[], &args(true, None, None)),
        Err(scope::bench::cli::PrepareSelectError::NoMatch)
    );
}

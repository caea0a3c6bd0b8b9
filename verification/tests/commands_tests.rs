use scope::commands::diff::{changed_files, valid_git_ref};
use scope::commands::entrypoints::{classify_group, collapse_and_group};
use scope::commands::index::{get_supported_extensions, reindex_delta, WatchTotals};
use scope::commands::looks_like_file_path;
use scope::commands::map::{compact_groups, rank_core_symbols, rank_directories, CoreSymbol, DirStats};
use scope::commands::refs::{derank_vendor_refs, enrich_reference, run_callers, CallersArgs, CallersPlan};
use scope::commands::sketch::{sketch_kind, SketchKind};
use scope::commands::similar::similar_query;
use scope::commands::status::{format_relative_time, format_relative_time_at};
use scope::commands::workspace::{
    discovery_step, find_workspace_manifest, index_summary_line, DiscoveryStep, member_mode, outcome_status, workspace_index_totals, MemberOutcome,
    manifest_candidates, skip_discovery_dir, workspace_name};
use scope::config::ProjectConfig;
use scope::engine::graph::{Reference, Symbol};

fn now() -> i64 {
    std::time::SystemTime::now()
        .duration_since(std::time::UNIX_EPOCH)
        .unwrap()
        .as_secs() as i64
}

#[test]
fn test_format_relative_time_just_now() {
    let now = now();
    assert_eq!(format_relative_time(now), "just now");
    assert_eq!(format_relative_time(now - 30), "just now");
}

#[test]
fn test_format_relative_time_minutes() {
    let now = now();
    assert_eq!(format_relative_time(now - 60), "1 minute ago");
    assert_eq!(format_relative_time(now - 120), "2 minutes ago");
    assert_eq!(format_relative_time(now - 300), "5 minutes ago");
}

#[test]
fn test_format_relative_time_hours() {
    let now = now();
    assert_eq!(format_relative_time(now - 3600), "1 hour ago");
    assert_eq!(format_relative_time(now - 7200), "2 hours ago");
}

#[test]
fn test_format_relative_time_days() {
    let now = now();
    assert_eq!(format_relative_time(now - 86400), "yesterday");
    assert_eq!(format_relative_time(now - 172800), "2 days ago");
}

#[test]
fn relative_time_at_fixed_clock() {
    assert_eq!(format_relative_time_at(1000, 2000), "just now");
    assert_eq!(format_relative_time_at(100_000, 100_000 - 3599), "59 minutes ago");
    assert_eq!(format_relative_time_at(100_000, 100_000 - 23 * 3600), "23 hours ago");
    assert_eq!(format_relative_time_at(i64::MAX, i64::MIN), "213503982334601 days ago");
}

#[test]
fn classify_group_by_path() {
    assert_eq!(classify_group("src/PaymentController.ts"), "API Controllers");
    assert_eq!(classify_group("src/jobs/cleanup.ts"), "Background Workers");
    assert_eq!(classify_group("src/EventListener.cs"), "Event Handlers");
    assert_eq!(classify_group("src/util.ts"), "Other");
}

#[test]
fn looks_like_file_path_cases() {
    assert!(looks_like_file_path("src/a.ts"));
    assert!(looks_like_file_path("main.rs"));
    assert!(looks_like_file_path("a\\b"));
    assert!(!looks_like_file_path("PaymentService"));
}

fn symbol(id: &str, name: &str, kind: &str, file: &str, parent: Option<&str>) -> Symbol {
    Symbol {
        id: id.to_string(),
        name: name.to_string(),
        kind: kind.to_string(),
        file_path: file.to_string(),
        line_start: 1,
        line_end: 2,
        signature: None,
        docstring: None,
        parent_id: parent.map(|p| p.to_string()),
        language: "typescript".to_string(),
        metadata: "{}".to_string(),
    }
}

#[test]
fn collapse_and_group_folds_class_methods() {
    let raw = vec![
        (symbol("c.ts::Api::class", "Api", "class", "src/ApiController.ts", None), 3),
        (
            symbol("c.ts::get::method", "get", "method", "src/ApiController.ts", Some("c.ts::Api::class")),
            1,
        ),
        (symbol("w.ts::run::function", "run", "function", "src/worker.ts", None), 2),
        (symbol("u.ts::f::function", "f", "function", "src/util.ts", None), 0),
    ];
    let counts = vec![("c.ts::Api::class".to_string(), 4usize)];
    let (groups, total, files) = collapse_and_group(&raw, &counts);
    assert_eq!(total, 3);
    assert_eq!(files, 3);
    assert_eq!(groups.len(), 3);
    assert_eq!(groups[0].0, "API Controllers");
    assert_eq!(groups[0].1[0].method_count, 4);
    assert_eq!(groups[1].0, "Background Workers");
    assert_eq!(groups[2].0, "Other");
}

#[test]
fn supported_extensions_follow_languages() {
    let config = ProjectConfig::default_for("p", vec!["TypeScript".to_string(), "c#".to_string(), "cobol".to_string()]);
    assert_eq!(get_supported_extensions(&config), vec!["ts", "tsx", "cs"]);
}

#[test]
fn reindex_deltas_and_totals() {
    let d = reindex_delta(10, 5, 7, 9);
    assert_eq!((d.symbols_added, d.symbols_removed, d.edges_added, d.edges_removed), (0, 3, 4, 0));
    let mut t = WatchTotals::new();
    t.record_batch(3);
    t.record_batch(2);
    assert_eq!(t.total_reindexes, 2);
    assert_eq!(t.total_files_processed, 5);
}

fn reference(file_path: &str, line: Option<i64>) -> Reference {
    Reference {
        from_id: "x".to_string(),
        from_name: file_path.to_string(),
        kind: "calls".to_string(),
        file_path: file_path.to_string(),
        line,
        context: String::new(),
        snippet_line: None,
        snippet: None,
    }
}

#[test]
fn derank_moves_vendor_refs_last() {
    let refs = vec![
        reference("node_modules/a.js", None),
        reference("src/b.ts", None),
        reference("vendor/c.go", None),
        reference("src/d.ts", None),
    ];
    let patterns = vec!["node_modules".to_string(), "vendor".to_string()];
    let out: Vec<String> = derank_vendor_refs(refs, &patterns).into_iter().map(|r| r.file_path).collect();
    assert_eq!(out, vec!["src/b.ts", "src/d.ts", "node_modules/a.js", "vendor/c.go"]);
}

#[test]
fn enrich_reference_sets_snippets() {
    let lines: Vec<String> = vec!["one  ".into(), "two".into(), "three\t".into(), "four".into()];
    let mut r = reference("a.ts", Some(2));
    enrich_reference(&mut r, &lines, 1);
    assert_eq!(r.snippet_line.as_deref(), Some("two"));
    assert_eq!(r.snippet, Some(vec!["one".to_string(), "two".to_string(), "three".to_string()]));
    let mut far = reference("a.ts", Some(9));
    enrich_reference(&mut far, &lines, 0);
    assert_eq!(far.snippet_line, None);
}

#[test]
fn run_callers_plans() {
    let args = CallersArgs { symbol: "pay".to_string(), depth: 1, limit: 20, context: 0, json: true };
    match run_callers(&args) {
        CallersPlan::Refs(r) => {
            assert_eq!(r.kind.as_deref(), Some("calls"));
            assert_eq!(r.symbol, "pay");
        }
        CallersPlan::Transitive => panic!("expected a refs query"),
    }
    let deep = CallersArgs { depth: 3, ..args };
    assert!(matches!(run_callers(&deep), CallersPlan::Transitive));
}

#[test]
fn ranking_is_stable_and_descending() {
    let core = vec![
        CoreSymbol { name: "a".into(), kind: "f".into(), file_path: "x".into(), caller_count: 1, project: None },
        CoreSymbol { name: "b".into(), kind: "f".into(), file_path: "x".into(), caller_count: 5, project: None },
        CoreSymbol { name: "c".into(), kind: "f".into(), file_path: "x".into(), caller_count: 1, project: None },
    ];
    let names: Vec<String> = rank_core_symbols(core, 2).into_iter().map(|c| c.name).collect();
    assert_eq!(names, vec!["b", "a"]);
    let dirs = vec![
        DirStats { directory: "a".into(), file_count: 1, symbol_count: 2 },
        DirStats { directory: "b".into(), file_count: 1, symbol_count: 9 },
    ];
    let order: Vec<String> = rank_directories(dirs).into_iter().map(|d| d.directory).collect();
    assert_eq!(order, vec!["b", "a"]);
    let groups = vec![("Other".to_string(), (0..15).map(|i| scope::commands::entrypoints::EntrypointInfo {
        name: i.to_string(), file_path: "x".into(), method_count: 0, outgoing_call_count: 0, kind: "f".into(),
    }).collect())];
    assert_eq!(compact_groups(groups)[0].1.len(), 10);
}

#[test]
fn diff_output_lines() {
    assert_eq!(changed_files("a.ts\n\nb.ts\r\n"), vec!["a.ts", "b.ts"]);
    assert!(changed_files("").is_empty());
    assert!(valid_git_ref("main"));
    assert!(!valid_git_ref("--output=x"));
}

#[test]
fn sketch_kinds() {
    assert_eq!(sketch_kind("struct"), SketchKind::Class);
    assert_eq!(sketch_kind("function"), SketchKind::Method);
    assert_eq!(sketch_kind("enum"), SketchKind::Enum);
    assert_eq!(sketch_kind("const"), SketchKind::Generic);
}

#[test]
fn similar_query_parts() {
    let mut s = symbol("x::processPayment::function", "processPayment", "function", "x.ts", None);
    s.signature = Some("processPayment(amount)".to_string());
    assert_eq!(similar_query(&s), "function processPayment process Payment processPayment(amount)");
}

#[test]
fn workspace_discovery_rules() {
    assert!(skip_discovery_dir(".git"));
    assert!(skip_discovery_dir("node_modules"));
    assert!(!skip_discovery_dir("api"));
    assert_eq!(workspace_name(&None, "/home/me/proj"), "proj");
    assert_eq!(workspace_name(&Some("ws".to_string()), "/home/me/proj"), "ws");
    assert_eq!(workspace_name(&None, "/"), "workspace");
}

#[test]
fn manifest_candidates_walk_upward() {
    assert_eq!(
        manifest_candidates("/a/b"),
        vec!["/a/b/scope-workspace.toml", "/a/scope-workspace.toml", "/scope-workspace.toml"]
    );
    assert_eq!(
        manifest_candidates("a/b"),
        vec!["a/b/scope-workspace.toml", "a/scope-workspace.toml", "scope-workspace.toml"]
    );
}

#[test]
fn workspace_manifest_nearest_present_wins() {
    let c = manifest_candidates("/a/b");
    assert_eq!(find_workspace_manifest(&c, &vec![false, true, true]), Ok("/a/scope-workspace.toml".to_string()));
    assert_eq!(find_workspace_manifest(&c, &vec![true, false, true]), Ok("/a/b/scope-workspace.toml".to_string()));
    assert_eq!(
        find_workspace_manifest(&c, &vec![false, false, false]),
        Err("No scope-workspace.toml found.\nRun 'scope workspace init' to create one.".to_string())
    );
}

#[test]
fn workspace_index_adds_up_indexed_members() {
    let outcomes = vec![
        MemberOutcome::Indexed { symbols: 10, edges: 4 },
        MemberOutcome::Skipped,
        MemberOutcome::Failed,
        MemberOutcome::Indexed { symbols: 5, edges: 1 },
    ];
    assert_eq!(workspace_index_totals(&outcomes), (2, 15, 5));
    assert_eq!(workspace_index_totals(&vec![]), (0, 0, 0));
    assert_eq!(outcome_status(MemberOutcome::Failed), "error");
    assert_eq!(outcome_status(MemberOutcome::Skipped), "skipped");
    assert_eq!(outcome_status(outcomes[0]), "indexed");
    assert_eq!(member_mode(MemberOutcome::Skipped, true), "skipped");
    assert_eq!(member_mode(MemberOutcome::Failed, true), "full");
    assert_eq!(member_mode(outcomes[0], false), "incremental");
    assert_eq!(index_summary_line(2, 4, 15), "Workspace indexed: 2/4 members, 15 total symbols");
}

#[test]
fn discovery_records_projects_and_descends_elsewhere() {
    assert_eq!(discovery_step("/ws/.git", "/ws", ".git", true), DiscoveryStep::Skip);
    assert_eq!(discovery_step("/ws/node_modules", "/ws", "node_modules", false), DiscoveryStep::Skip);
    assert_eq!(discovery_step("/ws/services", "/ws", "services", false), DiscoveryStep::Descend);
    assert_eq!(
        discovery_step("/ws/services/api", "/ws", "api", true),
        DiscoveryStep::Member { rel_path: "services/api".to_string(), name: "api".to_string() }
    );
    assert_eq!(
        discovery_step("/elsewhere/api", "/ws", "api", true),
        DiscoveryStep::Member { rel_path: "/elsewhere/api".to_string(), name: "api".to_string() }
    );
}

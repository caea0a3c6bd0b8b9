use scope::commands::diff::changed_symbols;
use scope::commands::flow::flow_paths;
use scope::commands::map::{core_symbols, dir_stats, CoreSymbol, DirStats};
use scope::commands::source::source_lines;
use scope::commands::summary::{counts_methods, file_summary_text, summary_text, top_level_entries};
use scope::commands::setup::{instructions_update, preload_snippet, InstructionsUpdate};
use scope::commands::similar::similar_kind_filter;
use scope::commands::sketch::{partition_by_kind, wants_file_sketch, SketchArgs};
use scope::commands::status::{workspace_totals, MemberStatusData, StatusData};
use scope::commands::workspace::{member_status, MemberProbe};
use scope::engine::graph::{CallPathStep, Symbol};
use scope::engine::workspace_graph::collect_found_symbols;
use scope::mcp::tools::{
    callers_args, deps_args, diff_args, refs_args, sketch_args, source_args, summary_args,
    trace_args, CallersParam, DepsParam, DiffParam, RefsParam, SymbolParam, TraceParam,
};

fn strings(v: &[&str]) -> Vec<String> {
    v.iter().map(|s| s.to_string()).collect()
}

fn sym(name: &str, kind: &str) -> Symbol {
    Symbol {
        id: format!("src/a.ts::{name}::{kind}"),
        name: name.to_string(),
        kind: kind.to_string(),
        file_path: "src/a.ts".to_string(),
        line_start: 3,
        line_end: 9,
        signature: Some(format!("{name}()")),
        docstring: None,
        parent_id: None,
        language: "typescript".to_string(),
        metadata: "{}".to_string(),
    }
}

fn step(name: &str) -> CallPathStep {
    CallPathStep {
        symbol_name: name.to_string(),
        symbol_id: format!("src/x.ts::{name}::function"),
        file_path: "src/x.ts".to_string(),
        line: 7,
        kind: "function".to_string(),
    }
}

#[test]
fn member_status_lines() {
    let ok = member_status(
        "api".to_string(),
        "services/api".to_string(),
        MemberProbe::Indexed { file_count: 4, symbol_count: 30, last_indexed_at: Some(100) },
    );
    assert_eq!(ok.status, "indexed");
    assert_eq!(ok.file_count, 4);
    assert_eq!(ok.symbol_count, 30);
    assert_eq!(ok.last_indexed_at, Some(100));
    let fresh = member_status("web".to_string(), "web".to_string(), MemberProbe::NoScopeDir);
    assert_eq!(fresh.status, "not initialised");
    assert_eq!(fresh.symbol_count, 0);
    let empty = member_status("w".to_string(), "w".to_string(), MemberProbe::NoDatabase);
    assert_eq!(empty.status, "not indexed");
    let broken = member_status("w".to_string(), "w".to_string(), MemberProbe::OpenFailed("locked".to_string()));
    assert_eq!(broken.status, "error: locked");
    assert_eq!(broken.last_indexed_at, None);
}

#[test]
fn changed_symbol_records_keep_the_symbol_fields() {
    let r = changed_symbols(&vec![sym("pay", "method"), sym("Svc", "class")]);
    assert_eq!(r.len(), 2);
    assert_eq!(r[0].name, "pay");
    assert_eq!(r[0].kind, "method");
    assert_eq!(r[0].file_path, "src/a.ts");
    assert_eq!(r[0].line_start, 3);
    assert_eq!(r[0].line_end, 9);
    assert_eq!(r[1].signature.as_deref(), Some("Svc()"));
}

#[test]
fn core_symbols_and_directories_for_the_map() {
    let ranked = vec![(sym("pay", "method"), 7usize)];
    let core = core_symbols(&ranked, &Some("api".to_string()));
    assert_eq!(core[0].name, "pay");
    assert_eq!(core[0].caller_count, 7);
    assert_eq!(core[0].project.as_deref(), Some("api"));
    let dirs = dir_stats(&vec![("core/".to_string(), 3, 40)], "api/");
    assert_eq!(dirs[0].directory, "api/core/");
    assert_eq!(dirs[0].file_count, 3);
    assert_eq!(dirs[0].symbol_count, 40);
}

#[test]
fn flow_paths_are_capped() {
    let raw = vec![vec![step("a"), step("b")], vec![step("c")], vec![step("d")]];
    let (paths, total, truncated) = flow_paths(raw, 2);
    assert_eq!(total, 2);
    assert!(truncated);
    assert_eq!(paths.len(), 2);
    assert_eq!(paths[0].steps.len(), 2);
    assert_eq!(paths[0].steps[1].name, "b");
    assert_eq!(paths[0].steps[1].line_start, 7);
    let (all, n, cut) = flow_paths(vec![vec![step("a")]], 5);
    assert_eq!((all.len(), n, cut), (1, 1, false));
}

#[test]
fn similar_search_uses_the_asked_kind_or_the_symbols() {
    let s = sym("pay", "method");
    assert_eq!(similar_kind_filter(&None, &s), "method");
    assert_eq!(similar_kind_filter(&Some("class".to_string()), &s), "class");
}

#[test]
fn sketch_of_a_file_or_a_symbol() {
    let mut args = SketchArgs {
        symbol: "PaymentService".to_string(),
        json: false,
        limit: 10,
        no_docs: false,
        file: false,
        compact: false,
    };
    assert!(!wants_file_sketch(&args));
    args.symbol = "src/payments/service.ts".to_string();
    assert!(wants_file_sketch(&args));
    args.symbol = "Foo".to_string();
    args.file = true;
    assert!(wants_file_sketch(&args));
    let children = vec![sym("a", "method"), sym("p", "property"), sym("b", "method")];
    let (methods, others) = partition_by_kind(&children, "method");
    assert_eq!(methods.iter().map(|s| s.name.as_str()).collect::<Vec<_>>(), vec!["a", "b"]);
    assert_eq!(others.len(), 1);
    assert_eq!(others[0].name, "p");
}

fn member(name: &str, exists: bool, symbols: usize, at: Option<i64>) -> MemberStatusData {
    MemberStatusData {
        name: name.to_string(),
        status: StatusData {
            index_exists: exists,
            symbol_count: symbols,
            file_count: symbols / 10,
            last_indexed_at: at,
            last_indexed_relative: None,
            edge_count: symbols * 2,
        },
    }
}

#[test]
fn workspace_status_totals() {
    let members = vec![member("a", true, 30, Some(1000)), member("b", true, 20, Some(4000))];
    let t = workspace_totals(&members, 4000 + 7200);
    assert!(t.index_exists);
    assert_eq!(t.symbol_count, 50);
    assert_eq!(t.file_count, 5);
    assert_eq!(t.edge_count, 100);
    assert_eq!(t.last_indexed_at, Some(4000));
    assert_eq!(t.last_indexed_relative.as_deref(), Some("2 hours ago"));
    let partial = workspace_totals(&vec![member("a", true, 1, None), member("b", false, 0, None)], 0);
    assert!(!partial.index_exists);
    assert_eq!(partial.last_indexed_relative, None);
    let none = StatusData::not_indexed();
    assert!(!none.index_exists);
    assert_eq!(none.symbol_count, 0);
}

#[test]
fn found_symbols_are_tagged_with_their_member() {
    let found = vec![("api".to_string(), Some(sym("pay", "method"))), ("web".to_string(), None)];
    let r = collect_found_symbols(found);
    assert_eq!(r.len(), 1);
    assert_eq!(r[0].project, "api");
    assert_eq!(r[0].name, "pay");
    assert_eq!(r[0].id, "src/a.ts::pay::method");
}

#[test]
fn mcp_symbol_tool_arguments() {
    let p = SymbolParam { symbol: "Svc".to_string() };
    assert_eq!(sketch_args(&p), strings(&["sketch", "--compact", "--", "Svc"]));
    assert_eq!(summary_args(&p), strings(&["summary", "--json", "--", "Svc"]));
    assert_eq!(source_args(&p), strings(&["source", "--json", "--", "Svc"]));
    assert_eq!(trace_args(&TraceParam { symbol: "Svc".to_string() }), strings(&["trace", "--json", "--", "Svc"]));
    assert_eq!(
        refs_args(&RefsParam { symbol: "Svc".to_string(), kind: Some("calls".to_string()) }),
        strings(&["refs", "--json", "--kind", "calls", "--", "Svc"])
    );
    assert_eq!(
        callers_args(&CallersParam { symbol: "pay".to_string(), depth: Some(3) }),
        strings(&["callers", "--json", "--depth", "3", "--", "pay"])
    );
    assert_eq!(
        deps_args(&DepsParam { symbol: "pay".to_string(), depth: None }),
        strings(&["deps", "--json", "--", "pay"])
    );
    assert_eq!(diff_args(&DiffParam { git_ref: Some("HEAD~2".to_string()) }), strings(&["diff", "--json", "--ref", "HEAD~2"]));
    assert_eq!(diff_args(&DiffParam { git_ref: None }), strings(&["diff", "--json"]));
}

#[test]
fn setup_updates_instructions_once() {
    assert_eq!(instructions_update("# Notes\n", false), InstructionsUpdate::AppendSection);
    assert_eq!(instructions_update("# Notes\n", true), InstructionsUpdate::AppendSection);
    assert_eq!(instructions_update("x\n## Code Navigation\n", false), InstructionsUpdate::Skip);
    assert_eq!(instructions_update("x\n## Code Navigation\n", true), InstructionsUpdate::AppendPreload);
    assert_eq!(
        instructions_update("## Code Navigation\n### Preloaded Architecture (scope map)\n", true),
        InstructionsUpdate::Skip
    );
}

#[test]
fn preload_snippet_lists_core_and_directories() {
    let core = vec![CoreSymbol {
        name: "Graph".to_string(),
        kind: "struct".to_string(),
        file_path: "src/graph.rs".to_string(),
        caller_count: 12,
        project: None,
    }];
    let dirs = vec![
        DirStats { directory: "src/".to_string(), file_count: 3, symbol_count: 40 },
        DirStats { directory: "tests/".to_string(), file_count: 1, symbol_count: 5 },
    ];
    assert_eq!(
        preload_snippet(4, 45, 60, &core, &dirs),
        "\n### Preloaded Architecture (scope map)\n\nStats: 4 files, 45 symbols, 60 edges\n\n\
         Core symbols:\n  Graph (src/graph.rs) — 12 callers\n\n\
         Architecture:\n  src/ — 3 files, 40 symbols\n  tests/ — 1 files, 5 symbols\n"
    );
    assert_eq!(
        preload_snippet(0, 0, 0, &vec![], &vec![]),
        "\n### Preloaded Architecture (scope map)\n\nStats: 0 files, 0 symbols, 0 edges\n\nCore symbols:\n\n\nArchitecture:\n\n"
    );
}

#[test]
fn source_lines_cut_to_symbol_range() {
    let text = "a\nb\r\nc\nd\n";
    assert_eq!(source_lines(text, 2, 3), Some(vec!["b".to_string(), "c".to_string()]));
    assert_eq!(source_lines(text, 3, 99), Some(vec!["c".to_string(), "d".to_string()]));
    assert_eq!(source_lines(text, 0, 1), Some(vec!["a".to_string()]));
    assert_eq!(source_lines(text, 5, 6), None);
    assert_eq!(source_lines(text, 3, 1), None);
    assert_eq!(source_lines(text, 3, 2), Some(vec![]));
}

#[test]
fn summary_lays_out_heading_signature_and_counts() {
    let mut s = sym("pay", "method");
    s.signature = Some("pay(amount: number)\n  : void".to_string());
    assert_eq!(
        summary_text(&s, 3, 0, 2),
        "pay (method)  src/a.ts:3–9  7 lines\n  pay(amount: number)\n  3 callers, 2 methods"
    );
    s.signature = None;
    assert_eq!(summary_text(&s, 0, 0, 0), "pay (method)  src/a.ts:3–9  7 lines");
    assert!(counts_methods("class") && counts_methods("struct") && counts_methods("interface"));
    assert!(!counts_methods("enum"));
}

#[test]
fn file_summary_lists_top_level_symbols() {
    let mut m = sym("charge", "method");
    m.parent_id = Some("src/a.ts::Pay::class".to_string());
    let all = vec![sym("Pay", "class"), m, sym("helper", "function")];
    let entries = top_level_entries(&all);
    assert_eq!(entries, vec!["class Pay".to_string(), "function helper".to_string()]);
    assert_eq!(file_summary_text("src/a.ts", all.len(), &entries), "src/a.ts  3 symbols: class Pay, function helper");
}

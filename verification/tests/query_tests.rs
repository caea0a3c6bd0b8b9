use scope::engine::parser::{has_parent_class, symbol_id};
use scope::engine::parser::associate_impl_methods;
use scope::engine::parser::trait_impl_edge;
use scope::commands::{is_qualified_name, resolve_from, split_qualified, ResolveError};
use scope::bench::agent::AgentAction;
use scope::bench::behavior::{
    aggregate_anti_patterns, behavior_counts, callers_without_refs, BehaviorCounts,
};
use scope::bench::report::{distinct_task_count, extract_categories, max_repetition};
use scope::engine::graph::{
    resolve_caller_count, table_lookup, CallPath, CallPathStep, CallerCountMaps, ImpactNode,
    Reference, Symbol,
};
use scope::engine::parser::{base_type_name, signature_of};
use scope::engine::selection::{
    after_last_dot_exec, caller_count_maps, class_module_id, class_relationships, dir_key,
    directory_stats, group_related_names, rank_by_importance, select_entrypoints,
};
use scope::engine::traversal::{
    assemble_impact, call_path_step, collect_dependencies, dedup_paths, file_ref_match_names,
    group_refs_by_kind, is_class_like_kind, path_ids, ref_match_names, symbol_seed_ids,
    trace_result, with_module_id, DependencyRow,
};

fn strings(v: &[&str]) -> Vec<String> {
    v.iter().map(|s| s.to_string()).collect()
}

fn node(id: &str, file: &str, depth: usize) -> ImpactNode {
    ImpactNode {
        id: id.to_string(),
        name: id.split("::").nth(1).unwrap_or(id).to_string(),
        file_path: file.to_string(),
        kind: "function".to_string(),
        depth,
    }
}

fn sym(id: &str, name: &str, kind: &str, file: &str) -> Symbol {
    Symbol {
        id: id.to_string(),
        name: name.to_string(),
        kind: kind.to_string(),
        file_path: file.to_string(),
        line_start: 1,
        line_end: 2,
        signature: None,
        docstring: None,
        parent_id: None,
        language: "typescript".to_string(),
        metadata: "{}".to_string(),
    }
}

fn reference(from: &str, kind: &str) -> Reference {
    Reference {
        from_id: from.to_string(),
        from_name: from.to_string(),
        kind: kind.to_string(),
        file_path: "src/a.ts".to_string(),
        line: Some(3),
        context: from.to_string(),
        snippet_line: None,
        snippet: None,
    }
}

fn step(name: &str) -> CallPathStep {
    CallPathStep {
        symbol_name: name.to_string(),
        symbol_id: format!("src/x.ts::{name}::function"),
        file_path: "src/x.ts".to_string(),
        line: 1,
        kind: "function".to_string(),
    }
}

fn action(seq: u32, tool: &str, args: &str, nav: bool, scope: bool, edit: bool) -> AgentAction {
    AgentAction {
        sequence: seq,
        tool_name: tool.to_string(),
        arguments_summary: args.to_string(),
        is_navigation: nav,
        is_scope_command: scope,
        is_edit: edit,
    }
}

#[test]
fn impact_skips_seeds_separates_tests_and_groups_by_depth() {
    let rows = vec![
        node("src/a.ts::A::function", "src/a.ts", 1),
        node("src/b.ts::B::function", "src/b.ts", 1),
        node("tests/b.test.ts::t::function", "tests/b.test.ts", 1),
        node("src/c.ts::C::function", "src/c.ts", 2),
        node("src/d.ts::D::function", "src/d.ts", 1),
    ];
    let seeds = strings(&["src/a.ts::A::function"]);
    let r = assemble_impact(&rows, &seeds);
    assert_eq!(r.total_affected, 3);
    assert_eq!(r.test_files.len(), 1);
    assert_eq!(r.test_files[0].id, "tests/b.test.ts::t::function");
    assert_eq!(r.nodes_by_depth.len(), 2);
    assert_eq!(r.nodes_by_depth[0].0, 1);
    let d1: Vec<&str> = r.nodes_by_depth[0].1.iter().map(|n| n.id.as_str()).collect();
    assert_eq!(d1, vec!["src/b.ts::B::function", "src/d.ts::D::function"]);
    assert_eq!(r.nodes_by_depth[1].0, 2);
    assert_eq!(r.nodes_by_depth[1].1[0].id, "src/c.ts::C::function");
}

#[test]
fn impact_of_nothing_is_empty() {
    let r = assemble_impact(&vec![], &vec![]);
    assert_eq!(r.total_affected, 0);
    assert!(r.nodes_by_depth.is_empty());
    assert!(r.test_files.is_empty());
}

#[test]
fn seeds_include_members_only_for_class_like_symbols() {
    let members = strings(&["a.ts::m1::method", "a.ts::m2::method"]);
    let class = sym("a.ts::Svc::class", "Svc", "class", "a.ts");
    assert_eq!(
        symbol_seed_ids(&class, &members),
        strings(&["a.ts::Svc::class", "a.ts::m1::method", "a.ts::m2::method"])
    );
    let func = sym("a.ts::run::function", "run", "function", "a.ts");
    assert_eq!(symbol_seed_ids(&func, &members), strings(&["a.ts::run::function"]));
    assert!(is_class_like_kind("struct"));
    assert!(is_class_like_kind("interface"));
    assert!(!is_class_like_kind("enum"));
}

#[test]
fn module_id_is_added_once() {
    let ids = with_module_id(strings(&["src/a.ts::A::class"]), "src/a.ts");
    assert_eq!(ids, strings(&["src/a.ts::A::class", "src/a.ts::__module__::function"]));
    let again = with_module_id(ids.clone(), "src/a.ts");
    assert_eq!(again, ids);
}

#[test]
fn dependencies_skip_self_references_and_repeated_names() {
    let rows = vec![
        DependencyRow {
            to_id: "src/main.ts::main::function".to_string(),
            kind: "calls".to_string(),
            depth: 1,
            by_id: Some(("main".to_string(), "src/main.ts".to_string())),
            by_name: None,
        },
        DependencyRow {
            to_id: "lib/x.ts::helper::function".to_string(),
            kind: "calls".to_string(),
            depth: 1,
            by_id: Some(("helper".to_string(), "lib/x.ts".to_string())),
            by_name: None,
        },
        DependencyRow {
            to_id: "helper".to_string(),
            kind: "calls".to_string(),
            depth: 2,
            by_id: None,
            by_name: Some(("helper".to_string(), "lib/x.ts".to_string())),
        },
        DependencyRow {
            to_id: "react".to_string(),
            kind: "imports".to_string(),
            depth: 1,
            by_id: None,
            by_name: None,
        },
        DependencyRow {
            to_id: "pkg::Thing::class".to_string(),
            kind: "references".to_string(),
            depth: 2,
            by_id: None,
            by_name: Some(("Thing".to_string(), "src/thing.ts".to_string())),
        },
    ];
    let sources = strings(&["src/main.ts::main::function"]);
    let deps = collect_dependencies(&rows, &sources);
    assert_eq!(deps.len(), 3);
    assert_eq!(deps[0].name, "helper");
    assert_eq!(deps[0].file_path.as_deref(), Some("lib/x.ts"));
    assert!(!deps[0].is_external);
    assert_eq!(deps[1].name, "react");
    assert_eq!(deps[1].file_path, None);
    assert!(deps[1].is_external);
    assert_eq!(deps[1].kind, "imports");
    assert_eq!(deps[2].name, "Thing");
    assert_eq!(deps[2].file_path.as_deref(), Some("src/thing.ts"));
    assert_eq!(deps[2].depth, 2);
}

#[test]
fn path_ids_split_on_arrows() {
    assert_eq!(path_ids("a::x::function>b::y::method>c"), strings(&["a::x::function", "b::y::method", "c"]));
    assert_eq!(path_ids("single"), strings(&["single"]));
}

#[test]
fn unindexed_step_is_read_from_its_id() {
    let s = call_path_step(None, "src/a.ts::foo::function");
    assert_eq!(s.symbol_name, "foo");
    assert_eq!(s.file_path, "src/a.ts");
    assert_eq!(s.kind, "function");
    assert_eq!(s.line, 0);
    assert_eq!(s.symbol_id, "src/a.ts::foo::function");
    let bare = call_path_step(None, "bare");
    assert_eq!(bare.symbol_name, "bare");
    assert_eq!(bare.file_path, "bare");
    assert_eq!(bare.kind, "unknown");
    let indexed = call_path_step(Some(step("known")), "whatever");
    assert_eq!(indexed.symbol_name, "known");
    assert_eq!(indexed.line, 1);
}

#[test]
fn repeated_paths_are_kept_once() {
    assert_eq!(dedup_paths(&strings(&["a>b", "c", "a>b", "c", "d"])), strings(&["a>b", "c", "d"]));
}

#[test]
fn trace_paths_come_shortest_first_then_by_name() {
    let paths = vec![
        CallPath { steps: vec![step("zeta"), step("m"), step("target")] },
        CallPath { steps: vec![step("beta"), step("target")] },
        CallPath { steps: vec![step("alpha"), step("target")] },
    ];
    let r = trace_result("target", paths);
    assert_eq!(r.target, "target");
    let heads: Vec<&str> = r.paths.iter().map(|p| p.steps[0].symbol_name.as_str()).collect();
    assert_eq!(heads, vec!["alpha", "beta", "zeta"]);
}

#[test]
fn reference_targets_include_members_of_classes() {
    let class = sym("a.ts::Svc::class", "Svc", "class", "a.ts");
    let members = vec![sym("a.ts::pay::method", "pay", "method", "a.ts")];
    assert_eq!(
        ref_match_names(&class, &members),
        strings(&["Svc", "a.ts::Svc::class", "pay", "a.ts::pay::method"])
    );
    let func = sym("a.ts::run::function", "run", "function", "a.ts");
    assert_eq!(ref_match_names(&func, &members), strings(&["run", "a.ts::run::function"]));
    let file_syms = vec![func.clone(), class.clone()];
    assert_eq!(
        file_ref_match_names(&file_syms),
        strings(&["run", "a.ts::run::function", "Svc", "a.ts::Svc::class"])
    );
}

#[test]
fn references_are_grouped_by_kind_in_first_seen_order() {
    let refs = vec![
        reference("r0", "calls"),
        reference("r1", "imports"),
        reference("r2", "calls"),
        reference("r3", "extends"),
    ];
    let groups = group_refs_by_kind(refs);
    let kinds: Vec<&str> = groups.iter().map(|g| g.0.as_str()).collect();
    assert_eq!(kinds, vec!["calls", "imports", "extends"]);
    let calls: Vec<&str> = groups[0].1.iter().map(|r| r.from_id.as_str()).collect();
    assert_eq!(calls, vec!["r0", "r2"]);
    assert_eq!(groups[1].1.len(), 1);
    assert_eq!(groups[2].1[0].from_id, "r3");
}

#[test]
fn member_call_suffix() {
    assert_eq!(after_last_dot_exec("svc.processPayment"), "processPayment");
    assert_eq!(after_last_dot_exec("a.b.c"), "c");
    assert_eq!(after_last_dot_exec("plain"), "plain");
}

#[test]
fn entrypoints_are_uncalled_non_test_symbols() {
    let candidates = vec![
        sym("src/main.ts::main::function", "main", "function", "src/main.ts"),
        sym("src/a.ts::helper::function", "helper", "function", "src/a.ts"),
        sym("src/a.ts::process::method", "process", "method", "src/a.ts"),
        sym("tests/x.test.ts::setup::function", "setup", "function", "tests/x.test.ts"),
        sym("src/u.ts::util::function", "util", "function", "src/u.ts"),
        sym("src/cli.ts::cli::function", "cli", "function", "src/cli.ts"),
    ];
    let called = strings(&["src/a.ts::helper::function", "svc.process", "util"]);
    let outgoing = vec![("src/main.ts::main::function".to_string(), 3usize)];
    let r = select_entrypoints(&candidates, &called, &outgoing);
    let names: Vec<(&str, usize)> = r.iter().map(|(s, n)| (s.name.as_str(), *n)).collect();
    assert_eq!(names, vec![("main", 3), ("cli", 0)]);
}

#[test]
fn directory_keys() {
    assert_eq!(dir_key("src/core/graph.rs"), "core/");
    assert_eq!(dir_key("src/main.rs"), "(root)/");
    assert_eq!(dir_key("lib\\util\\x.ts"), "lib/");
    assert_eq!(dir_key("README.md"), "(root)/");
}

#[test]
fn directory_stats_count_files_and_symbols() {
    let paths = strings(&["src/core/a.rs", "src/core/a.rs", "src/core/b.rs", "src/main.rs", "lib/x.ts"]);
    let stats = directory_stats(&paths);
    assert_eq!(
        stats,
        vec![
            ("(root)/".to_string(), 1, 1),
            ("core/".to_string(), 2, 3),
            ("lib/".to_string(), 1, 1),
        ]
    );
}

#[test]
fn importance_ranks_by_callers_then_name() {
    let maps = CallerCountMaps {
        by_id: vec![("a.ts::f::function".to_string(), 2), ("g".to_string(), 3), ("e".to_string(), 2)],
        by_suffix: vec![("h".to_string(), 1)],
    };
    let symbols = vec![
        sym("a.ts::f::function", "f", "function", "a.ts"),
        sym("b.ts::g::function", "g", "function", "b.ts"),
        sym("c.ts::h::function", "h", "function", "c.ts"),
        sym("d.ts::k::function", "k", "function", "d.ts"),
        sym("e.ts::e::function", "e", "function", "e.ts"),
    ];
    let r = rank_by_importance(&symbols, &maps, 3);
    let ranked: Vec<(&str, usize)> = r.iter().map(|(s, n)| (s.name.as_str(), *n)).collect();
    assert_eq!(ranked, vec![("g", 3), ("e", 2), ("f", 2)]);
    let all = rank_by_importance(&symbols, &maps, 10);
    assert_eq!(all.len(), 4);
    assert_eq!(all[3].0.name, "h");
}

#[test]
fn related_names_are_grouped_deduplicated_and_capped() {
    let mut rows: Vec<(String, String)> = vec![
        ("t1".to_string(), "a".to_string()),
        ("t1".to_string(), "b".to_string()),
        ("t1".to_string(), "a".to_string()),
        ("t2".to_string(), "c".to_string()),
    ];
    for i in 0..12 {
        rows.push(("t3".to_string(), format!("n{i}")));
    }
    let groups = group_related_names(&rows);
    assert_eq!(groups.len(), 3);
    assert_eq!(groups[0], ("t1".to_string(), strings(&["a", "b"])));
    assert_eq!(groups[1], ("t2".to_string(), strings(&["c"])));
    assert_eq!(groups[2].1.len(), 10);
    assert_eq!(groups[2].1[9], "n9");
}

#[test]
fn caller_count_tables_from_rows() {
    let rows = vec![
        ("processPayment".to_string(), 2usize),
        ("svc.processPayment".to_string(), 3),
        ("other.processPayment".to_string(), 1),
        ("x".to_string(), 5),
    ];
    let maps = caller_count_maps(&rows);
    assert_eq!(table_lookup(&maps.by_id, "processPayment"), 2);
    assert_eq!(table_lookup(&maps.by_id, "svc.processPayment"), 3);
    assert_eq!(table_lookup(&maps.by_suffix, "processPayment"), 4);
    assert_eq!(table_lookup(&maps.by_suffix, "x"), 0);
    assert_eq!(resolve_caller_count(&maps, "a.ts::processPayment::method", "processPayment"), 6);
}

#[test]
fn class_relationship_names() {
    assert_eq!(class_module_id("src/a.ts::Foo::class"), "src/a.ts::__module__::class");
    let extends = vec![("src/b.ts::Base::class".to_string(), Some("Base".to_string()))];
    let implements = vec![("IFoo".to_string(), None)];
    let deps = vec![
        ("x.ts::dep::function".to_string(), None),
        ("dep".to_string(), None),
        ("y".to_string(), Some("Y".to_string())),
    ];
    let r = class_relationships(&extends, &implements, &deps);
    assert_eq!(r.extends, strings(&["Base"]));
    assert_eq!(r.implements, strings(&["IFoo"]));
    assert_eq!(r.dependencies, strings(&["dep", "Y"]));
}

#[test]
fn signatures_are_cut_at_the_body() {
    assert_eq!(
        signature_of("function_declaration", "function foo(a: number) {\n  return a;\n}").as_deref(),
        Some("function foo(a: number)")
    );
    assert_eq!(signature_of("function_definition", "def run(self):\n    pass").as_deref(), Some("def run(self):"));
    assert_eq!(signature_of("class_declaration", "   "), None);
}

#[test]
fn enum_variant_signatures_keep_their_shape() {
    assert_eq!(signature_of("enum_variant", "Pending,").as_deref(), Some("Pending"));
    assert_eq!(
        signature_of("enum_variant", "Success {\n    tx_id: String,\n},").as_deref(),
        Some("Success { tx_id: String, }")
    );
    assert_eq!(signature_of("enum_variant", "Error(String),\n").as_deref(), Some("Error(String)"));
}

#[test]
fn impl_target_base_names() {
    assert_eq!(base_type_name("type_identifier", "Foo", None).as_deref(), Some("Foo"));
    assert_eq!(base_type_name("generic_type", "Foo<T>", Some("Foo".to_string())).as_deref(), Some("Foo"));
    assert_eq!(base_type_name("generic_type", "Foo<T>", None), None);
    assert_eq!(base_type_name("scoped_type_identifier", "a::b::Baz", None).as_deref(), Some("Baz"));
    assert_eq!(base_type_name("reference_type", "&X", None).as_deref(), Some("&X"));
}

#[test]
fn summary_categories_and_counts() {
    let ids = strings(&["ts-cat-b-01", "ts-cat-a-02", "ts-cat-a-01", "x"]);
    assert_eq!(extract_categories(&ids), strings(&["cat-a", "cat-b", "unknown"]));
    assert_eq!(distinct_task_count(&strings(&["a", "b", "a"])), 2);
    assert_eq!(max_repetition(&vec![]), 1);
    assert_eq!(max_repetition(&vec![2, 5, 3]), 5);
}

fn counts(sketch: u32, grep: u32, both: bool) -> BehaviorCounts {
    BehaviorCounts {
        actions_before_first_edit: 0,
        unique_files_read: 0,
        redundant_reads: 0,
        total_actions: 0,
        scope_commands_total: 0,
        scope_commands_before_first_edit: 0,
        scope_then_read_same_file: sketch,
        scope_command_sequence: vec![],
        grep_after_scope_find: grep,
        callers_and_refs_same_symbol: both,
        navigation_count: 0,
        edit_count: 0,
    }
}

#[test]
fn anti_patterns_add_up_over_runs() {
    let runs = vec![counts(1, 0, true), counts(2, 3, false), counts(0, 1, true)];
    let a = aggregate_anti_patterns(&runs);
    assert_eq!(a.sketch_then_read_count, 3);
    assert_eq!(a.grep_after_find_count, 4);
    assert_eq!(a.callers_and_refs_count, 2);
}

#[test]
fn refs_never_used_when_only_callers_appear() {
    let only_callers = vec![strings(&["scope callers Foo", "scope sketch Foo"]), strings(&["scope find x"])];
    assert!(callers_without_refs(&only_callers));
    let both = vec![strings(&["scope callers Foo"]), strings(&["scope refs Foo"])];
    assert!(!callers_without_refs(&both));
    assert!(!callers_without_refs(&vec![]));
}

#[test]
fn test_empty_actions() {
    let metrics = behavior_counts(&[]);
    assert_eq!(metrics.total_actions, 0);
    assert_eq!(metrics.actions_before_first_edit, 0);
    // The navigation-to-edit ratio is infinite exactly when there is no edit.
    assert_eq!(metrics.edit_count, 0);
    assert_eq!(metrics.unique_files_read, 0);
    assert_eq!(metrics.redundant_reads, 0);
}

#[test]
fn test_actions_before_first_edit() {
    let actions = vec![
        action(1, "Read", "src/main.rs", true, false, false),
        action(2, "Bash", "scope sketch Foo", true, true, false),
        action(3, "Read", "src/foo.rs", true, false, false),
        action(4, "Edit", "src/foo.rs", false, false, true),
    ];
    let metrics = behavior_counts(&actions);
    assert_eq!(metrics.actions_before_first_edit, 3);
    assert_eq!(metrics.total_actions, 4);
}

#[test]
fn test_no_edits() {
    let actions = vec![
        action(1, "Read", "src/main.rs", true, false, false),
        action(2, "Read", "src/lib.rs", true, false, false),
    ];
    let metrics = behavior_counts(&actions);
    assert_eq!(metrics.actions_before_first_edit, 2);
    // The navigation-to-edit ratio is infinite exactly when there is no edit.
    assert_eq!(metrics.edit_count, 0);
}

#[test]
fn test_navigation_to_edit_ratio() {
    let actions = vec![
        action(1, "Read", "a.rs", true, false, false),
        action(2, "Read", "b.rs", true, false, false),
        action(3, "Edit", "a.rs", false, false, true),
    ];
    let metrics = behavior_counts(&actions);
    let ratio = metrics.navigation_count as f64 / metrics.edit_count as f64;
    assert!((ratio - 2.0).abs() < f64::EPSILON);
}

#[test]
fn test_unique_and_redundant_reads() {
    let actions = vec![
        action(1, "Read", "src/a.rs", true, false, false),
        action(2, "Read", "src/b.rs", true, false, false),
        action(3, "Read", "src/a.rs", true, false, false),
        action(4, "Read", "src/a.rs", true, false, false),
    ];
    let metrics = behavior_counts(&actions);
    assert_eq!(metrics.unique_files_read, 2);
    assert_eq!(metrics.redundant_reads, 2);
}

#[test]
fn test_scope_command_sequence() {
    let actions = vec![
        action(1, "Bash", "scope sketch PaymentService", true, true, false),
        action(2, "Bash", "scope refs processPayment", true, true, false),
        action(3, "Bash", "scope find \"retry logic\"", true, true, false),
    ];
    let metrics = behavior_counts(&actions);
    assert_eq!(metrics.scope_commands_total, 3);
    assert_eq!(metrics.scope_command_sequence, vec!["scope sketch", "scope refs", "scope find"]);
}

#[test]
fn symbol_ids_and_parent_kinds() {
    assert_eq!(symbol_id("src/a.rs", "run", "function", 12), "src/a.rs::run::function::12");
    assert!(has_parent_class("method"));
    assert!(has_parent_class("variant"));
    assert!(!has_parent_class("function"));
}

fn at(name: &str, kind: &str, line: u32, parent: Option<&str>) -> Symbol {
    Symbol {
        id: format!("src/lib.rs::{name}::{kind}::{line}"),
        name: name.to_string(),
        kind: kind.to_string(),
        file_path: "src/lib.rs".to_string(),
        line_start: line,
        line_end: line + 2,
        signature: None,
        docstring: None,
        parent_id: parent.map(|p| p.to_string()),
        language: "rust".to_string(),
        metadata: "{}".to_string(),
    }
}

#[test]
fn impl_methods_are_attached_to_their_type() {
    let mut symbols = vec![
        at("Account", "struct", 1, None),
        at("new", "function", 5, None),
        at("balance", "function", 9, None),
        at("helper", "function", 20, None),
        at("new", "function", 30, None),
    ];
    let impls = vec![
        ("Account".to_string(), vec![("new".to_string(), 5u32), ("balance".to_string(), 9u32)]),
        ("Remote".to_string(), vec![("new".to_string(), 30u32)]),
    ];
    associate_impl_methods(&mut symbols, &impls, "src/lib.rs");
    assert_eq!(symbols[1].kind, "method");
    assert_eq!(symbols[1].parent_id.as_deref(), Some("src/lib.rs::Account::struct::1"));
    assert_eq!(symbols[1].id, "src/lib.rs::new::method::5");
    assert_eq!(symbols[2].id, "src/lib.rs::balance::method::9");
    assert_eq!(symbols[3].kind, "function");
    assert_eq!(symbols[4].kind, "function");
    assert_eq!(symbols[4].parent_id, None);
    assert_eq!(symbols[1].line_end, 7);
}

#[test]
fn trait_impls_become_implements_edges() {
    let symbols = vec![at("Account", "struct", 1, None)];
    let e = trait_impl_edge(&symbols, "src/lib.rs", "Display", "Account", 40);
    assert_eq!(e.from_id, "src/lib.rs::Account::struct::1");
    assert_eq!(e.to_id, "Display");
    assert_eq!(e.kind, "implements");
    assert_eq!(e.line, Some(40));
    let foreign = trait_impl_edge(&symbols, "src/lib.rs", "Debug", "Other", 50);
    assert_eq!(foreign.from_id, "src/lib.rs::__module__::class");
}

#[test]
fn names_resolve_by_prefix_then_uniquely() {
    let a = sym("src/a.ts::pay::method", "pay", "method", "src/a.ts");
    let b = sym("src/b.ts::pay::function", "pay", "function", "src/b.ts");
    assert!(is_qualified_name("src/a.ts::pay"));
    assert!(!is_qualified_name("pay"));
    match resolve_from("src/a.ts::pay", Some(a.clone()), None, &vec![]) {
        Ok(s) => assert_eq!(s.id, "src/a.ts::pay::method"),
        Err(_) => panic!("expected a match"),
    }
    match resolve_from("pay", None, Some(a.clone()), &vec![a.clone()]) {
        Ok(s) => assert_eq!(s.name, "pay"),
        Err(_) => panic!("expected a match"),
    }
    match resolve_from("pay", None, Some(a.clone()), &vec![a.clone(), b.clone()]) {
        Err(ResolveError::Ambiguous(m)) => assert_eq!(
            m,
            "Ambiguous symbol 'pay' matches 2 definitions:\n  1. pay (method)  src/a.ts:1\n  2. pay (function)  src/b.ts:1\n\nUse a qualified name to disambiguate:\n  scope <cmd> src/a.ts::pay::method"
        ),
        _ => panic!("expected ambiguity"),
    }
    match resolve_from("nope", None, None, &vec![]) {
        Err(ResolveError::NotFound(m)) => assert_eq!(
            m,
            "Symbol 'nope' not found in index.\nTip: Check spelling, or use 'scope find \"nope\"' for semantic search."
        ),
        _ => panic!("expected not found"),
    }
    assert_eq!(split_qualified("Svc.pay"), Some(("Svc".to_string(), "pay".to_string())));
    assert_eq!(split_qualified("a.b.c"), Some(("a".to_string(), "b.c".to_string())));
    assert_eq!(split_qualified("plain"), None);
}

#[test]
fn behavior_counts_hang_together() {
    let actions = vec![
        action(1, "Bash", "scope sketch Foo", true, true, false),
        action(2, "Read", "src/a.rs", true, false, false),
        action(3, "Read", "src/a.rs", true, false, false),
        action(4, "Edit", "src/a.rs", false, false, true),
        action(5, "Bash", "scope refs Foo", true, true, false),
        action(6, "Read", "src/b.rs", true, false, false),
    ];
    let m = behavior_counts(&actions);
    assert_eq!(m.unique_files_read + m.redundant_reads, 3);
    assert_eq!(m.unique_files_read, 2);
    assert_eq!(m.scope_commands_total, 2);
    assert_eq!(m.scope_commands_before_first_edit, 1);
    assert!(m.scope_commands_before_first_edit <= m.scope_commands_total);
    assert_eq!(m.actions_before_first_edit, 3);
}

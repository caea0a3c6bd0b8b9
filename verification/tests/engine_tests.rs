use scope::engine::embedder::{build_embedding_text, extract_name_from_id, split_camel_case};
use scope::engine::graph::{has_stale_files, is_test_file, resolve_caller_count, CallerCountMaps, FileModified, Symbol};
use scope::engine::searcher::{build_fts_query, vendor_derank_order};

fn make_symbol(name: &str, kind: &str) -> Symbol {
    Symbol {
        id: format!("test.ts::{name}::{kind}"),
        name: name.to_string(),
        kind: kind.to_string(),
        file_path: "test.ts".to_string(),
        line_start: 1,
        line_end: 10,
        signature: None,
        docstring: None,
        parent_id: None,
        language: "typescript".to_string(),
        metadata: "{}".to_string(),
    }
}

#[test]
fn test_basic_embedding_text() {
    let sym = make_symbol("PaymentService", "class");
    assert_eq!(build_embedding_text(&sym), "class PaymentService | Payment Service");
}

#[test]
fn test_basic_embedding_text_no_split_needed() {
    let sym = make_symbol("login", "function");
    assert_eq!(build_embedding_text(&sym), "function login");
}

#[test]
fn test_embedding_text_with_signature() {
    let mut sym = make_symbol("processPayment", "method");
    sym.signature = Some("(amount: number) => boolean".to_string());
    assert_eq!(
        build_embedding_text(&sym),
        "method processPayment | process Payment | (amount: number) => boolean"
    );
}

#[test]
fn test_embedding_text_with_docstring() {
    let mut sym = make_symbol("login", "function");
    sym.docstring = Some("Authenticates a user".to_string());
    assert_eq!(build_embedding_text(&sym), "function login | Authenticates a user");
}

#[test]
fn test_embedding_text_with_parent() {
    let mut sym = make_symbol("processPayment", "method");
    sym.parent_id = Some("src/pay.ts::PaymentService::class".to_string());
    sym.signature = Some("(amount: number) => boolean".to_string());
    sym.docstring = Some("Process a payment".to_string());
    assert_eq!(
        build_embedding_text(&sym),
        "method processPayment | process Payment | (amount: number) => boolean | Process a payment | in PaymentService | in Payment Service"
    );
}

#[test]
fn test_split_camel_case() {
    assert_eq!(split_camel_case("processPayment"), "process Payment");
    assert_eq!(split_camel_case("PaymentService"), "Payment Service");
    assert_eq!(split_camel_case("login"), "login");
    assert_eq!(split_camel_case("getHTTPResponse"), "get HTTP Response");
    assert_eq!(split_camel_case("URL"), "URL");
}

#[test]
fn test_extract_name_from_id() {
    assert_eq!(
        extract_name_from_id("src/pay.ts::PaymentService::class"),
        Some("PaymentService".to_string())
    );
    assert_eq!(extract_name_from_id("foo"), None);
}

#[test]
fn test_resolve_caller_count_exact_id() {
    let maps = CallerCountMaps {
        by_id: vec![("src/foo.ts::processPayment::function::10".to_string(), 3)],
        by_suffix: vec![],
    };
    assert_eq!(
        resolve_caller_count(&maps, "src/foo.ts::processPayment::function::10", "processPayment"),
        3
    );
}

#[test]
fn test_resolve_caller_count_bare_name() {
    let maps = CallerCountMaps {
        by_id: vec![("processPayment".to_string(), 2)],
        by_suffix: vec![],
    };
    assert_eq!(
        resolve_caller_count(&maps, "src/foo.ts::processPayment::function::10", "processPayment"),
        2
    );
}

#[test]
fn test_resolve_caller_count_suffix_match() {
    let maps = CallerCountMaps {
        by_id: vec![],
        by_suffix: vec![("processPayment".to_string(), 5)],
    };
    assert_eq!(
        resolve_caller_count(&maps, "src/foo.ts::processPayment::function::10", "processPayment"),
        5
    );
}

#[test]
fn test_resolve_caller_count_all_three_patterns() {
    let maps = CallerCountMaps {
        by_id: vec![
            ("src/foo.ts::processPayment::function::10".to_string(), 1),
            ("processPayment".to_string(), 2),
        ],
        by_suffix: vec![("processPayment".to_string(), 3)],
    };
    assert_eq!(
        resolve_caller_count(&maps, "src/foo.ts::processPayment::function::10", "processPayment"),
        6
    );
}

#[test]
fn test_resolve_caller_count_no_match() {
    let maps = CallerCountMaps {
        by_id: vec![("other".to_string(), 10)],
        by_suffix: vec![("other".to_string(), 5)],
    };
    assert_eq!(
        resolve_caller_count(&maps, "src/foo.ts::processPayment::function::10", "processPayment"),
        0
    );
}

#[test]
fn test_is_test_file() {
    assert!(is_test_file("tests/unit/payment.test.ts"));
    assert!(is_test_file("src/payments/PaymentService.spec.ts"));
    assert!(is_test_file("Tests/Unit/PaymentTests.cs"));
    assert!(!is_test_file("src/payments/PaymentService.ts"));
    assert!(!is_test_file("src/controllers/OrderController.cs"));
}

#[test]
fn test_build_fts_query_simple() {
    assert_eq!(build_fts_query("authentication errors"), "authentication* OR errors*");
}

#[test]
fn test_build_fts_query_single_word() {
    assert_eq!(build_fts_query("payment"), "payment*");
}

#[test]
fn test_build_fts_query_empty() {
    assert_eq!(build_fts_query(""), "");
    assert_eq!(build_fts_query("   "), "");
}

#[test]
fn test_build_fts_query_special_chars() {
    assert_eq!(build_fts_query("foo-bar baz"), "foobar* OR baz*");
}

#[test]
fn test_build_fts_query_camel_case_splitting() {
    assert_eq!(
        build_fts_query("TransactionController"),
        "TransactionController* OR transaction* OR controller*"
    );
}

#[test]
fn test_build_fts_query_snake_case_splitting() {
    let q = build_fts_query("payment_retry");
    assert!(q.contains("payment_retry*"));
    assert!(q.contains("payment*"));
    assert!(q.contains("retry*"));
}

#[test]
fn test_build_fts_query_camel_case_no_short_words() {
    assert_eq!(build_fts_query("GoTo"), "GoTo*");
}

use scope::engine::parser::{detect_language, LanguageError, SupportedLanguage};
use scope::engine::watcher::{is_ignored, is_supported_file, lock_busy_message, lock_holder_pid, WatchLock, Watcher};
use scope::engine::workspace_graph::{
    merge_languages, merge_refs, per_member_limit, total_count, workspace_display_id,
};
use scope::engine::graph::Reference;

#[test]
fn is_supported_file_matches_known_extensions() {
    let exts = vec!["ts".to_string(), "tsx".to_string(), "cs".to_string()];
    assert!(is_supported_file("src/app.ts", &exts));
    assert!(is_supported_file("src/app.tsx", &exts));
    assert!(is_supported_file("src/Service.cs", &exts));
    assert!(!is_supported_file("src/app.js", &exts));
    assert!(!is_supported_file("README.md", &exts));
    assert!(!is_supported_file("Makefile", &exts));
}

#[test]
fn is_ignored_filters_scope_directory() {
    let root = "/project";
    let patterns: Vec<String> = vec![];
    assert!(is_ignored("/project/.scope/graph.db", root, &patterns));
    assert!(is_ignored("/project/.scope/config.toml", root, &patterns));
}

#[test]
fn is_ignored_filters_configured_patterns() {
    let root = "/project";
    let patterns = vec!["node_modules".to_string(), "dist".to_string()];
    assert!(is_ignored("/project/node_modules/pkg/index.ts", root, &patterns));
    assert!(is_ignored("/project/dist/bundle.js", root, &patterns));
    assert!(!is_ignored("/project/src/app.ts", root, &patterns));
}

#[test]
fn is_ignored_outside_root_is_kept() {
    let patterns = vec!["dist".to_string()];
    assert!(!is_ignored("/elsewhere/dist/a.ts", "/project", &patterns));
}

#[test]
fn watcher_wants_supported_unignored_files() {
    let w = Watcher::new(
        "/project".to_string(),
        vec!["node_modules".to_string()],
        vec!["ts".to_string()],
        std::time::Duration::from_millis(300),
    );
    assert!(w.wants("/project/src/app.ts"));
    assert!(!w.wants("/project/node_modules/x/app.ts"));
    assert!(!w.wants("/project/src/app.js"));
    assert_eq!(w.debounce_duration, std::time::Duration::from_millis(300));
}

#[test]
fn watch_lock_path_is_inside_scope_dir() {
    let lock = WatchLock::new("/project/.scope");
    assert_eq!(lock.lock_path(), "/project/.scope/.watch.lock");
    let lock = WatchLock::new("/project/.scope/");
    assert_eq!(lock.lock_path(), "/project/.scope/.watch.lock");
}

#[test]
fn detect_language_by_extension() {
    assert_eq!(detect_language("src/a.ts"), Ok(SupportedLanguage::TypeScript));
    assert_eq!(detect_language("src/a.tsx"), Ok(SupportedLanguage::TypeScript));
    assert_eq!(detect_language("A.cs"), Ok(SupportedLanguage::CSharp));
    assert_eq!(detect_language("x/y.py"), Ok(SupportedLanguage::Python));
    assert_eq!(detect_language("main.go"), Ok(SupportedLanguage::Go));
    assert_eq!(detect_language("Main.java"), Ok(SupportedLanguage::Java));
    assert_eq!(detect_language("lib.rs"), Ok(SupportedLanguage::Rust));
    assert_eq!(detect_language("Makefile"), Err(LanguageError::NoExtension));
    assert_eq!(
        detect_language("app.js"),
        Err(LanguageError::UnsupportedExtension("js".to_string()))
    );
}

#[test]
fn language_names() {
    assert_eq!(SupportedLanguage::TypeScript.as_str(), "typescript");
    assert_eq!(SupportedLanguage::CSharp.as_str(), "csharp");
    assert_eq!(SupportedLanguage::CSharp.display_name(), "C#");
    assert_eq!(SupportedLanguage::Rust.display_name(), "Rust");
}

#[test]
fn workspace_display_id_prefixes_correctly() {
    let display = workspace_display_id("api", "src/main.ts::PaymentService::class");
    assert_eq!(display, "api::src/main.ts::PaymentService::class");
}

fn reference(kind: &str, from_name: &str, file_path: &str) -> Reference {
    Reference {
        from_id: format!("{file_path}::{from_name}::function"),
        from_name: from_name.to_string(),
        kind: kind.to_string(),
        file_path: file_path.to_string(),
        line: Some(1),
        context: String::new(),
        snippet_line: None,
        snippet: None,
    }
}

#[test]
fn merge_refs_sorts_by_kind_then_name_and_limits() {
    let per_member = vec![
        (
            "api".to_string(),
            vec![reference("imports", "b", "x.ts"), reference("calls", "z", "x.ts")],
        ),
        (
            "worker".to_string(),
            vec![reference("calls", "a", "y.ts"), reference("calls", "z", "w.ts")],
        ),
    ];
    let merged = merge_refs(per_member, 3);
    assert_eq!(merged.len(), 3);
    assert_eq!(merged[0].reference.from_name, "a");
    assert_eq!(merged[0].project, "worker");
    assert_eq!(merged[1].reference.from_name, "z");
    assert_eq!(merged[1].project, "api");
    assert_eq!(merged[2].reference.from_name, "z");
    assert_eq!(merged[2].project, "worker");
}

#[test]
fn merge_languages_dedups_and_sorts() {
    let per_member = vec![
        vec!["typescript".to_string(), "go".to_string()],
        vec!["go".to_string(), "csharp".to_string()],
    ];
    assert_eq!(merge_languages(&per_member), vec!["csharp", "go", "typescript"]);
}

#[test]
fn per_member_limit_doubles() {
    assert_eq!(per_member_limit(20), 40);
    assert_eq!(per_member_limit(usize::MAX), usize::MAX);
}

#[test]
fn total_count_sums() {
    assert_eq!(total_count(&vec![1, 2, 3]), 6);
    assert_eq!(total_count(&vec![]), 0);
}

#[test]
fn vendor_results_move_after_first_party() {
    let paths: Vec<String> = vec!["node_modules/x.ts", "src/a.ts", "vendor/y.go", "src/b.ts"]
        .into_iter()
        .map(String::from)
        .collect();
    let pats = vec!["node_modules".to_string(), "vendor".to_string()];
    assert_eq!(vendor_derank_order(&paths, &pats), vec![1, 3, 0, 2]);
    assert_eq!(vendor_derank_order(&paths, &[]), vec![0, 1, 2, 3]);
}

#[test]
fn stale_when_modified_after_indexing_or_gone() {
    assert!(!has_stale_files(&vec![]));
    assert!(!has_stale_files(&vec![(100, FileModified::At(100)), (100, FileModified::Unknown)]));
    assert!(has_stale_files(&vec![(100, FileModified::At(50)), (100, FileModified::At(101))]));
    assert!(has_stale_files(&vec![(100, FileModified::Missing)]));
}

#[test]
fn watch_lock_names_its_holder() {
    assert_eq!(lock_holder_pid("4242\n"), Some(4242));
    assert_eq!(lock_holder_pid("  +7 "), Some(7));
    assert_eq!(lock_holder_pid(""), None);
    assert_eq!(lock_holder_pid("-0"), None);
    assert_eq!(lock_holder_pid("abc"), None);
    assert_eq!(lock_holder_pid("4294967296"), None);
    assert_eq!(lock_holder_pid("4294967295"), Some(u32::MAX));
    assert_eq!(
        lock_busy_message(12),
        "Another watcher is running (PID 12). Stop it first or remove .scope/.watch.lock"
    );
}

#[test]
fn empty_workspace_has_zero_counts() {
    let members: Vec<usize> = vec![];
    assert_eq!(members.len(), 0);
    assert_eq!(total_count(&members), 0);
    assert_eq!(merge_languages(&vec![]), Vec::<String>::new());
}

#[test]
fn unicode_whitespace_is_trimmed() {
    assert_eq!(lock_holder_pid("\u{3000}42\u{85}\u{2009}"), Some(42));
    assert_eq!(lock_holder_pid("\u{200b}42"), None);
}

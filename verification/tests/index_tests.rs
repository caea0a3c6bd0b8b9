use scope::engine::graph::{caller_display_name, symbol_name_from_id, ChangedFiles};
use scope::engine::indexer::{changed_files_between, compute_hash, files_to_reindex, full_index_stats, index_entry};
use scope::engine::parser::SupportedLanguage;

fn strings(v: &[&str]) -> Vec<String> {
    v.iter().map(|s| s.to_string()).collect()
}

fn table(v: &[(&str, &str)]) -> Vec<(String, String)> {
    v.iter().map(|(a, b)| (a.to_string(), b.to_string())).collect()
}

#[test]
fn content_hash_is_hex_sha256() {
    assert_eq!(compute_hash(""), "e3b0c44298fc1c149afbf4c8996fb92427ae41e4649b934ca495991b7852b855");
    assert_eq!(compute_hash("hello"), "2cf24dba5fb0a30e26e83b2ac5b9e29e1b161e5c1fa7425e73043362938b9824");
    assert_eq!(compute_hash("hello").len(), 64);
}

#[test]
fn changes_between_current_and_stored_hashes() {
    let current = table(&[("a.ts", "1"), ("b.ts", "2"), ("c.ts", "3")]);
    let stored = table(&[("a.ts", "1"), ("b.ts", "X"), ("d.ts", "4")]);
    let changed = changed_files_between(&current, &stored);
    assert_eq!(changed.added, strings(&["c.ts"]));
    assert_eq!(changed.modified, strings(&["b.ts"]));
    assert_eq!(changed.deleted, strings(&["d.ts"]));
    assert!(!changed.is_empty());
    assert_eq!(files_to_reindex(&changed), strings(&["b.ts", "c.ts"]));
}

#[test]
fn nothing_changes_when_hashes_agree() {
    let current = table(&[("a.ts", "1"), ("b.ts", "2")]);
    let changed = changed_files_between(&current, &current);
    assert!(changed.is_empty());
    assert!(files_to_reindex(&ChangedFiles::default()).is_empty());
}

#[test]
fn index_entries() {
    let ts = strings(&["TypeScript"]);
    assert_eq!(
        index_entry("/proj/src/a.ts", "/proj", &vec![], &ts),
        Some(("src/a.ts".to_string(), SupportedLanguage::TypeScript))
    );
    assert_eq!(index_entry("/proj/.scope/a.ts", "/proj", &vec![], &ts), None);
    assert_eq!(index_entry("/proj/sub/x.ts", "/proj", &strings(&["/proj/sub"]), &ts), None);
    assert_eq!(index_entry("/proj/readme.md", "/proj", &vec![], &ts), None);
    assert_eq!(index_entry("/proj/src/a.ts", "/proj", &vec![], &strings(&["python"])), None);
    assert_eq!(index_entry("/other/a.ts", "/proj", &vec![], &ts), None);
}

#[test]
fn full_index_statistics() {
    let parsed = vec![
        (SupportedLanguage::TypeScript, 5usize, 2usize),
        (SupportedLanguage::Python, 3, 1),
        (SupportedLanguage::TypeScript, 1, 0),
    ];
    let stats = full_index_stats(3, &parsed, std::time::Duration::from_millis(5));
    assert_eq!(stats.file_count, 3);
    assert_eq!(stats.symbol_count, 9);
    assert_eq!(stats.edge_count, 3);
    assert_eq!(stats.language_stats.len(), 2);
    assert_eq!(stats.language_stats[0].language, "typescript");
    assert_eq!(stats.language_stats[0].file_count, 2);
    assert_eq!(stats.language_stats[0].symbol_count, 6);
    assert_eq!(stats.language_stats[1].language, "python");
    assert_eq!(stats.language_stats[1].symbol_count, 3);
}

#[test]
fn names_from_ids() {
    assert_eq!(symbol_name_from_id(None, "src/a.ts::pay::method"), "pay");
    assert_eq!(symbol_name_from_id(None, "bare"), "bare");
    assert_eq!(symbol_name_from_id(Some("Indexed".to_string()), "src/a.ts::pay::method"), "Indexed");
}

#[test]
fn caller_display_names() {
    assert_eq!(
        caller_display_name(Some(("pay".to_string(), Some("Svc".to_string()))), "x", None),
        "Svc.pay"
    );
    assert_eq!(caller_display_name(Some(("run".to_string(), None)), "x", None), "run");
    assert_eq!(
        caller_display_name(None, "src/api/orders.controller.ts::__module__::function", None),
        "orders.controller"
    );
    assert_eq!(caller_display_name(None, "src/a.ts::helper::function", None), "helper");
}

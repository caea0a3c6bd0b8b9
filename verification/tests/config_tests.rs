use scope::config::project::{
    default_vendor_patterns, is_vendor_path, vendor_patterns_for_languages, ProjectConfig,
};
use scope::config::workspace::{
    MemberLocation, WorkspaceConfig, WorkspaceDefaults, WorkspaceMemberEntry, WorkspaceSection,
};

#[test]
fn test_is_vendor_path_node_modules() {
    let patterns = default_vendor_patterns();
    assert!(is_vendor_path("node_modules/stripe/payment.js", &patterns));
}

#[test]
fn test_is_vendor_path_first_party() {
    let patterns = default_vendor_patterns();
    assert!(!is_vendor_path("src/payments/service.ts", &patterns));
}

#[test]
fn test_is_vendor_path_go_vendor() {
    let patterns = default_vendor_patterns();
    assert!(is_vendor_path("vendor/github.com/pkg/errors/errors.go", &patterns));
}

#[test]
fn test_is_vendor_path_no_substring_match() {
    let patterns = default_vendor_patterns();
    assert!(!is_vendor_path("src/my-vendor-lib/util.rs", &patterns));
}

#[test]
fn test_is_vendor_path_nested_vendor() {
    let patterns = default_vendor_patterns();
    assert!(is_vendor_path("packages/api/node_modules/lodash/index.js", &patterns));
}

#[test]
fn test_vendor_patterns_for_languages_dedup() {
    let langs = vec!["typescript".to_string(), "java".to_string()];
    let patterns = vendor_patterns_for_languages(&langs);
    let build_count = patterns.iter().filter(|p| p.as_str() == "build").count();
    assert_eq!(build_count, 1);
}

#[test]
fn test_vendor_patterns_for_languages_unknown() {
    let langs = vec!["brainfuck".to_string()];
    let patterns = vendor_patterns_for_languages(&langs);
    assert!(patterns.is_empty());
}

#[test]
fn default_config_carries_language_vendor_patterns() {
    let config = ProjectConfig::default_for("demo", vec!["rust".to_string()]);
    assert_eq!(config.project.name, "demo");
    assert_eq!(config.index.vendor_patterns, default_vendor_patterns());
    assert_eq!(config.project.languages, vec!["rust"]);
}

#[test]
fn member_name_defaults_to_directory_basename() {
    let entry = WorkspaceMemberEntry { path: "services/api".to_string(), name: None };
    assert_eq!(WorkspaceConfig::resolve_member_name(&entry), "api");
}

#[test]
fn member_name_uses_explicit_name() {
    let entry = WorkspaceMemberEntry {
        path: "services/api-v2".to_string(),
        name: Some("api".to_string()),
    };
    assert_eq!(WorkspaceConfig::resolve_member_name(&entry), "api");
}

fn workspace(members: &[(&str, Option<&str>)]) -> WorkspaceConfig {
    WorkspaceConfig {
        workspace: WorkspaceSection {
            name: "test".to_string(),
            version: None,
            members: members
                .iter()
                .map(|(p, n)| WorkspaceMemberEntry {
                    path: p.to_string(),
                    name: n.map(|s| s.to_string()),
                })
                .collect(),
            defaults: WorkspaceDefaults::default(),
        },
    }
}

fn found(root: &str, path: &str) -> MemberLocation {
    MemberLocation {
        exists: true,
        canonical: Some(format!("{root}/{path}")),
        display: format!("{root}/{path}"),
    }
}

#[test]
fn validate_rejects_missing_member_path() {
    let config = workspace(&[("does-not-exist", None)]);
    let locations = vec![MemberLocation {
        exists: false,
        canonical: None,
        display: "/ws/does-not-exist".to_string(),
    }];
    let err = config.validate("/ws", &locations).unwrap_err();
    assert!(err.message().contains("does not exist"));
}

#[test]
fn validate_rejects_duplicate_member_names() {
    let config = workspace(&[("a", Some("shared")), ("b", Some("shared"))]);
    let locations = vec![found("/ws", "a"), found("/ws", "b")];
    let err = config.validate("/ws", &locations).unwrap_err();
    assert!(err.message().contains("Duplicate member name"));
}

#[test]
fn validate_rejects_overlapping_paths() {
    let config = workspace(&[("parent", None), ("parent/child", None)]);
    let locations = vec![found("/ws", "parent"), found("/ws", "parent/child")];
    let err = config.validate("/ws", &locations).unwrap_err();
    assert!(err.message().contains("overlaps"));
}

#[test]
fn validate_accepts_valid_workspace() {
    let config = workspace(&[("api", None), ("worker", None), ("shared", None)]);
    let locations = vec![found("/ws", "api"), found("/ws", "worker"), found("/ws", "shared")];
    config.validate("/ws", &locations).unwrap();
}

#[test]
fn validate_rejects_member_outside_root() {
    let config = workspace(&[("../other", None)]);
    let locations = vec![MemberLocation {
        exists: true,
        canonical: Some("/other".to_string()),
        display: "/ws/../other".to_string(),
    }];
    let err = config.validate("/ws", &locations).unwrap_err();
    assert!(err.message().contains("outside workspace root"));
}

#[test]
fn generate_toml_produces_valid_manifest() {
    let members = vec![
        ("services/api".to_string(), "api".to_string()),
        ("libs/shared".to_string(), "shared".to_string()),
    ];
    let toml_str = WorkspaceConfig::generate_toml("my-workspace", &members);
    assert!(toml_str.contains("name = \"my-workspace\"\n"));
    assert!(toml_str.contains("version = 1\n"));
    assert!(toml_str.contains("[[workspace.members]]\npath = \"services/api\"\nname = \"api\"\n"));
    assert!(toml_str.contains("path = \"libs/shared\"\nname = \"shared\"\n"));
    assert_eq!(toml_str.matches("[[workspace.members]]").count(), 2);
}

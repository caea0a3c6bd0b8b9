use scope::error::ScopeError;
use scope::mcp::tools::{find_args, flow_args, map_args, status_args, FindParam, FlowParam, MapParam};

#[test]
fn mcp_tool_arguments() {
    assert_eq!(status_args(), vec!["status", "--json"]);
    assert_eq!(map_args(&MapParam { limit: Some(5) }), vec!["map", "--compact", "--limit", "5"]);
    assert_eq!(
        find_args(&FindParam { query: "retry".into(), kind: Some("function".into()), limit: None }),
        vec!["find", "--json", "--kind", "function", "--", "retry"]
    );
    assert_eq!(
        flow_args(&FlowParam { start: "a".into(), end: "b".into(), depth: Some(3) }),
        vec!["flow", "--json", "--depth", "3", "--", "a", "b"]
    );
}

#[test]
fn scope_error_messages() {
    assert_eq!(
        ScopeError::SymbolNotFound("Foo".into()).message(),
        "Symbol 'Foo' not found in index. Run 'sc index' if this is a new file."
    );
    assert_eq!(ScopeError::StorageError("disk".into()).message(), "Storage error: disk");
}

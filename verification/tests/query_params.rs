use std::collections::HashMap;

use mom::handlers::{
    kinds_from_names, limit_from_param, list_query, parse_kinds, parse_tags, required_tenant, scope_from_params,
    ApiError, ListParams,
};
use mom::kernel::MemoryKind;
use mom::text::parse_i64;

fn list_params(params: &HashMap<String, String>) -> ListParams {
    ListParams {
        tenant_id: params.get("tenant_id").cloned(),
        workspace_id: params.get("workspace_id").cloned(),
        project_id: params.get("project_id").cloned(),
        agent_id: params.get("agent_id").cloned(),
        run_id: params.get("run_id").cloned(),
        kinds: params.get("kinds").cloned(),
        tags: params.get("tags").cloned(),
        limit: params.get("limit").cloned(),
        since_ms: params.get("since_ms").cloned(),
        until_ms: params.get("until_ms").cloned(),
    }
}

#[test]
fn test_parse_single_kind() {
    let kinds = parse_kinds("event");
    assert_eq!(kinds, Some(vec![MemoryKind::Event]));
}

#[test]
fn test_parse_multiple_kinds() {
    let kinds = parse_kinds("event,summary,fact");
    assert_eq!(kinds, Some(vec![MemoryKind::Event, MemoryKind::Summary, MemoryKind::Fact]));
}

#[test]
fn test_parse_kinds_with_whitespace() {
    let kinds = parse_kinds("event , summary , fact");
    assert_eq!(kinds, Some(vec![MemoryKind::Event, MemoryKind::Summary, MemoryKind::Fact]));
}

#[test]
fn test_parse_kinds_case_insensitive() {
    let kinds = parse_kinds("EVENT,Summary,FACT");
    assert_eq!(kinds, Some(vec![MemoryKind::Event, MemoryKind::Summary, MemoryKind::Fact]));
}

#[test]
fn test_parse_invalid_kind() {
    let kinds = parse_kinds("invalid,event");
    assert_eq!(kinds, None);
}

#[test]
fn test_parse_empty_kinds() {
    let kinds = parse_kinds("");
    assert_eq!(kinds, None);
}

#[test]
fn test_parse_all_kinds() {
    let kinds = parse_kinds("event,summary,fact,preference");
    assert_eq!(
        kinds,
        Some(vec![MemoryKind::Event, MemoryKind::Summary, MemoryKind::Fact, MemoryKind::Preference])
    );
}

#[test]
fn test_parse_kinds_trailing_comma_is_invalid() {
    assert_eq!(parse_kinds("event,"), None);
    assert_eq!(parse_kinds("\u{3000}fact\t"), Some(vec![MemoryKind::Fact]));
}

#[test]
fn test_parse_single_tag() {
    let tags = parse_tags("important");
    assert_eq!(tags, Some(vec!["important".to_string()]));
}

#[test]
fn test_parse_multiple_tags() {
    let tags = parse_tags("important,urgent,review");
    assert_eq!(
        tags,
        Some(vec!["important".to_string(), "urgent".to_string(), "review".to_string()])
    );
}

#[test]
fn test_parse_tags_with_whitespace() {
    let tags = parse_tags("important , urgent , review");
    assert_eq!(
        tags,
        Some(vec!["important".to_string(), "urgent".to_string(), "review".to_string()])
    );
}

#[test]
fn test_parse_empty_tags() {
    let tags = parse_tags("");
    assert_eq!(tags, None);
}

#[test]
fn test_parse_empty_tags_with_commas() {
    let tags = parse_tags(",,");
    assert_eq!(tags, None);
}

#[test]
fn test_parse_tags_with_empty_elements() {
    let tags = parse_tags("important,,urgent");
    assert_eq!(tags, Some(vec!["important".to_string(), "urgent".to_string()]));
}

#[test]
fn test_parse_tags_only_whitespace() {
    assert_eq!(parse_tags(" , \t ,\n"), None);
}

#[test]
fn test_limit_default() {
    let params: HashMap<String, String> = HashMap::new();
    let limit = limit_from_param(params.get("limit").map(|s| s.as_str()));
    assert_eq!(limit, 10);
}

#[test]
fn test_limit_custom() {
    let mut params: HashMap<String, String> = HashMap::new();
    params.insert("limit".to_string(), "50".to_string());
    let limit = limit_from_param(params.get("limit").map(|s| s.as_str()));
    assert_eq!(limit, 50);
}

#[test]
fn test_limit_clamped() {
    let mut params: HashMap<String, String> = HashMap::new();
    params.insert("limit".to_string(), "500".to_string());
    let limit = limit_from_param(params.get("limit").map(|s| s.as_str()));
    assert_eq!(limit, 100);
}

#[test]
fn test_limit_invalid() {
    let mut params: HashMap<String, String> = HashMap::new();
    params.insert("limit".to_string(), "invalid".to_string());
    let limit = limit_from_param(params.get("limit").map(|s| s.as_str()));
    assert_eq!(limit, 10);
}

#[test]
fn test_limit_edge_cases() {
    assert_eq!(limit_from_param(Some("+7")), 7);
    assert_eq!(limit_from_param(Some("-7")), 10);
    assert_eq!(limit_from_param(Some("+")), 10);
    assert_eq!(limit_from_param(Some("")), 10);
    assert_eq!(limit_from_param(Some("99999999999999999999999")), 10);
    assert_eq!(limit_from_param(Some("100")), 100);
    assert_eq!(limit_from_param(Some("0")), 0);
}

#[test]
fn test_timestamp_parsing() {
    let mut params: HashMap<String, String> = HashMap::new();
    params.insert("since_ms".to_string(), "1609459200000".to_string());
    params.insert("until_ms".to_string(), "1609545600000".to_string());

    let since_ms = params.get("since_ms").and_then(|s| parse_i64(s));
    let until_ms = params.get("until_ms").and_then(|s| parse_i64(s));

    assert_eq!(since_ms, Some(1609459200000i64));
    assert_eq!(until_ms, Some(1609545600000i64));
}

#[test]
fn test_timestamp_invalid() {
    let mut params: HashMap<String, String> = HashMap::new();
    params.insert("since_ms".to_string(), "invalid".to_string());

    let since_ms = params.get("since_ms").and_then(|s| parse_i64(s));
    assert_eq!(since_ms, None);
}

#[test]
fn test_parse_i64_extremes() {
    assert_eq!(parse_i64("-9223372036854775808"), Some(i64::MIN));
    assert_eq!(parse_i64("9223372036854775807"), Some(i64::MAX));
    assert_eq!(parse_i64("9223372036854775808"), None);
    assert_eq!(parse_i64("-9223372036854775809"), None);
    assert_eq!(parse_i64("-"), None);
    assert_eq!(parse_i64("+12"), Some(12));
    assert_eq!(parse_i64("1 2"), None);
}

#[test]
fn test_combined_filters() {
    let mut params: HashMap<String, String> = HashMap::new();
    params.insert("tenant_id".to_string(), "acme".to_string());
    params.insert("kinds".to_string(), "event,summary".to_string());
    params.insert("tags".to_string(), "important,urgent".to_string());
    params.insert("limit".to_string(), "25".to_string());
    params.insert("since_ms".to_string(), "1609459200000".to_string());

    let q = list_query(list_params(&params));

    assert_eq!(q.kinds, Some(vec![MemoryKind::Event, MemoryKind::Summary]));
    assert_eq!(q.tags_any, Some(vec!["important".to_string(), "urgent".to_string()]));
    assert_eq!(q.limit, 25);
    assert_eq!(q.since_ms, Some(1609459200000i64));
    assert_eq!(q.until_ms, None);
    assert_eq!(q.scope.tenant_id, "acme");
    assert!(q.text.is_empty());
}

#[test]
fn test_default_tenant_id() {
    let params: HashMap<String, String> = HashMap::new();
    let q = list_query(list_params(&params));

    assert_eq!(q.scope.tenant_id, "default");
    assert_eq!(q.scope.workspace_id, None);
    assert_eq!(q.limit, 10);
}

#[test]
fn test_scope_key_parsing() {
    let mut params: HashMap<String, String> = HashMap::new();
    params.insert("tenant_id".to_string(), "acme".to_string());
    params.insert("workspace_id".to_string(), "workspace1".to_string());
    params.insert("project_id".to_string(), "project1".to_string());
    params.insert("agent_id".to_string(), "agent1".to_string());
    params.insert("run_id".to_string(), "run1".to_string());

    let scope = list_query(list_params(&params)).scope;

    assert_eq!(scope.tenant_id, "acme");
    assert_eq!(scope.workspace_id, Some("workspace1".to_string()));
    assert_eq!(scope.project_id, Some("project1".to_string()));
    assert_eq!(scope.agent_id, Some("agent1".to_string()));
    assert_eq!(scope.run_id, Some("run1".to_string()));
}

#[test]
fn test_semantic_search_tenant_id_required() {
    let params: HashMap<String, String> = HashMap::new();
    let tenant_id = params.get("tenant_id");

    assert!(tenant_id.is_none());
    match required_tenant(tenant_id.cloned()) {
        Err(ApiError::BadRequest(m)) => assert_eq!(m, "tenant_id is required"),
        other => panic!("unexpected {:?}", other),
    }
}

#[test]
fn test_scoped_lookup_requires_tenant() {
    match scope_from_params(None, Some("ws".to_string()), None, None, None) {
        Err(ApiError::BadRequest(m)) => assert_eq!(m, "tenant_id is required"),
        other => panic!("unexpected {:?}", other.map(|s| s.tenant_id)),
    }
    let scope = scope_from_params(Some("acme".to_string()), None, None, None, Some("r".to_string())).unwrap();
    assert_eq!(scope.tenant_id, "acme");
    assert_eq!(scope.run_id, Some("r".to_string()));
}

#[test]
fn test_kinds_from_lowered_names() {
    let names = vec!["fact".to_string(), "event".to_string()];
    assert_eq!(kinds_from_names(&names), Some(vec![MemoryKind::Fact, MemoryKind::Event]));
    assert_eq!(kinds_from_names(&vec!["Fact".to_string()]), None);
    assert_eq!(kinds_from_names(&vec!["fact".to_string(), " event".to_string()]), None);
    assert_eq!(kinds_from_names(&Vec::new()), None);
}

use mom::error::MomError;
use mom::memory::{Content, MemoryItem, MemoryKind, ScopeKey, Source};
use mom::server::{
    context_pack, kind_from_request, memory_from_request, memory_not_found, recall_query,
    scope_from_request, RequestContent, ScopeKeyRequest,
};
use mom::kernel::Scored;

#[test]
fn test_write_request_kinds() {
    assert_eq!(kind_from_request("episode").ok(), Some(MemoryKind::Episode));
    match kind_from_request("Event") {
        Err(MomError::InvalidInput(m)) => assert_eq!(m, "Invalid memory kind"),
        other => panic!("unexpected {:?}", other),
    }
}

#[test]
fn test_write_request_scope_defaults_tenant() {
    let s = scope_from_request(None);
    assert_eq!(s.tenant_id, "default");
    let s = scope_from_request(Some(ScopeKeyRequest {
        tenant_id: None,
        workspace_id: Some("w".to_string()),
        project_id: None,
        agent_id: None,
        run_id: None,
    }));
    assert_eq!(s.tenant_id, "default");
    assert_eq!(s.workspace_id, Some("w".to_string()));
}

#[test]
fn test_write_scope_default_tenant() {
    let params: std::collections::HashMap<String, String> = std::collections::HashMap::new();
    let scope = scope_from_request(Some(ScopeKeyRequest {
        tenant_id: params.get("tenant_id").cloned(),
        workspace_id: None,
        project_id: None,
        agent_id: None,
        run_id: None,
    }));
    assert_eq!(scope.tenant_id, "default");
}

#[test]
fn test_memory_from_request() {
    let item = memory_from_request(
        "fact",
        RequestContent::String("sky is blue".to_string()),
        Some(vec!["t".to_string()]),
        None,
    )
    .expect("valid request");
    assert_eq!(item.kind, MemoryKind::Fact);
    assert_eq!(item.tags, vec!["t".to_string()]);
    assert_eq!(item.source, Source::User);
    assert_eq!(item.id.len(), 36);
    assert_eq!(item.integrity_hash.len(), 36);
    assert_ne!(item.id, item.integrity_hash);
    assert_eq!(f32::from_bits(item.importance), 0.5);

    match memory_from_request("nope", RequestContent::Other, None, None) {
        Err(MomError::InvalidInput(m)) => assert_eq!(m, "Invalid memory kind"),
        other => panic!("unexpected {:?}", other),
    }
    match memory_from_request("event", RequestContent::Other, None, None) {
        Err(MomError::InvalidInput(m)) => assert_eq!(m, "Invalid content"),
        other => panic!("unexpected {:?}", other),
    }
}

#[test]
fn test_not_found_message_and_status() {
    let e = memory_not_found("abc");
    let (status, message) = e.response_parts();
    assert_eq!(status, 404);
    assert_eq!(message, "Memory abc not found");
    assert_eq!(MomError::InvalidInput("x".to_string()).response_parts().0, 400);
    assert_eq!(MomError::Internal("boom".to_string()).response_parts(), (500, "boom".to_string()));
}

#[test]
fn test_recall_query_and_context_pack() {
    let q = recall_query("hello".to_string());
    assert_eq!(q.text, Some("hello".to_string()));
    assert_eq!(q.limit, Some(10));
    assert_eq!(q.offset, Some(0));

    let scope = ScopeKey {
        tenant_id: "t".to_string(),
        workspace_id: None,
        project_id: None,
        agent_id: None,
        run_id: None,
    };
    let a = MemoryItem::new(scope.clone(), MemoryKind::Event, Content::Text("a".to_string()), Source::Tool);
    let b = MemoryItem::new(scope, MemoryKind::Event, Content::Text("b".to_string()), Source::Tool);
    let (ida, idb) = (a.id.clone(), b.id.clone());
    let pack = context_pack(vec![Scored { score: 1, item: a }, Scored { score: 2, item: b }]);
    let ids: Vec<String> = pack.highlights.iter().map(|i| i.id.clone()).collect();
    assert_eq!(ids, vec![ida, idb]);
    assert!(pack.summaries.is_empty() && pack.facts.is_empty() && pack.citations.is_empty());
}

#[test]
fn test_json_and_io_errors_answer_with_their_text() {
    let json_text = serde_json::from_str::<serde_json::Value>("{").unwrap_err().to_string();
    assert_eq!(
        MomError::SerializationError(json_text.clone()).response_parts(),
        (400, json_text)
    );
    let io_text = std::io::Error::new(std::io::ErrorKind::Other, "disk gone").to_string();
    assert_eq!(MomError::IoError(io_text).response_parts(), (500, "disk gone".to_string()));
    assert_eq!(MomError::StorageError("s".to_string()).response_parts(), (500, "s".to_string()));
    assert_eq!(MomError::DatabaseError("d".to_string()).response_parts(), (500, "d".to_string()));
}

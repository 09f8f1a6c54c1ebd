use mom::kernel::{Content, MemoryId, MemoryItem, MemoryKind, Query, ScopeKey};
use mom::surreal::{
    delete_scoped_statement, select_scoped_statement, delete_statement, from_stored, kind_to_str, query_statement_of, select_statement, str_to_kind,
    to_stored, upsert_statement,
};

fn scope() -> ScopeKey {
    ScopeKey {
        tenant_id: "acme".to_string(),
        workspace_id: Some("ws".to_string()),
        project_id: None,
        agent_id: Some("bot".to_string()),
        run_id: Some("r1".to_string()),
    }
}

fn item(content: Content, kind: MemoryKind) -> MemoryItem {
    MemoryItem {
        id: MemoryId("m-1".to_string()),
        scope: scope(),
        kind,
        created_at_ms: 42,
        content,
        tags: vec!["a".to_string()],
        importance: 0.25f32.to_bits(),
        confidence: 1.0f32.to_bits(),
        source: "user".to_string(),
        ttl_ms: Some(5),
        meta: vec![("k".to_string(), "1".to_string())],
        embedding: Some(vec![1.5f32.to_bits()]),
        embedding_model: Some("m".to_string()),
    }
}

#[test]
fn test_kind_labels_round_trip() {
    for k in [MemoryKind::Event, MemoryKind::Summary, MemoryKind::Fact, MemoryKind::Preference] {
        assert_eq!(str_to_kind(kind_to_str(k)), Some(k));
    }
    assert_eq!(kind_to_str(MemoryKind::Preference), "Preference");
    assert_eq!(str_to_kind("event"), None);
}

#[test]
fn test_storage_round_trip() {
    for content in [
        Content::Text("t".to_string()),
        Content::Json("{}".to_string()),
        Content::TextJson { text: "t".to_string(), json: "[1]".to_string() },
    ] {
        let written = item(content, MemoryKind::Fact);
        let stored = to_stored(written.clone());
        assert_eq!(stored.kind, "Fact");
        let back = from_stored(stored);
        assert_eq!(format!("{:?}", back), format!("{:?}", written));
    }
}

#[test]
fn test_stored_columns() {
    let stored = to_stored(item(Content::TextJson { text: "t".to_string(), json: "{}".to_string() }, MemoryKind::Event));
    assert_eq!(stored.content_text, Some("t".to_string()));
    assert_eq!(stored.content_json, Some("{}".to_string()));
    assert_eq!(stored.tenant_id, "acme");
    assert_eq!(stored.run_id, Some("r1".to_string()));
}

#[test]
fn test_empty_stored_content_reads_as_empty_text() {
    let mut stored = to_stored(item(Content::Text("x".to_string()), MemoryKind::Summary));
    stored.content_text = None;
    stored.kind = "Unknown".to_string();
    let back = from_stored(stored);
    match back.content {
        Content::Text(t) => assert!(t.is_empty()),
        _ => panic!("expected text"),
    }
    assert_eq!(back.kind, MemoryKind::Event);
}

#[test]
fn test_row_statements() {
    assert_eq!(upsert_statement("m-1", "{\"a\":1}"), "UPSERT memory_items:⟨m-1⟩ MERGE {\"a\":1}");
    assert_eq!(select_statement("m-1"), "SELECT * FROM memory_items:⟨m-1⟩");
    assert_eq!(delete_statement("m-1"), "DELETE memory_items:⟨m-1⟩");
}

#[test]
fn test_query_statement_full() {
    let q = Query {
        scope: scope(),
        text: "deploy".to_string(),
        kinds: Some(vec![MemoryKind::Event, MemoryKind::Fact]),
        tags_any: None,
        limit: 25,
        since_ms: Some(-5),
        until_ms: Some(1609459200000),
    };
    assert_eq!(
        query_statement_of(&q),
        "SELECT * FROM memory_items WHERE tenant_id = 'acme' AND workspace_id = 'ws' AND agent_id = 'bot' AND run_id = 'r1' AND kind IN ['Event', 'Fact'] AND created_at_ms >= -5 AND created_at_ms <= 1609459200000 AND (content_text CONTAINS 'deploy' OR tags CONTAINS ['deploy']) ORDER BY importance DESC, created_at_ms DESC LIMIT 25"
    );
}

#[test]
fn test_query_statement_minimal() {
    let q = Query {
        scope: ScopeKey {
            tenant_id: "t".to_string(),
            workspace_id: None,
            project_id: Some("p".to_string()),
            agent_id: None,
            run_id: None,
        },
        text: String::new(),
        kinds: Some(vec![]),
        tags_any: None,
        limit: 0,
        since_ms: None,
        until_ms: None,
    };
    assert_eq!(
        query_statement_of(&q),
        "SELECT * FROM memory_items WHERE tenant_id = 't' AND project_id = 'p' AND kind IN [] ORDER BY importance DESC, created_at_ms DESC LIMIT 0"
    );
}

#[test]
fn test_every_query_is_confined_to_its_tenant() {
    let filter = "SELECT * FROM memory_items WHERE tenant_id = 'tenant-b'";
    for text in ["", "x", "tenant-a"] {
        let q = Query {
            scope: ScopeKey {
                tenant_id: "tenant-b".to_string(),
                workspace_id: Some("ws-2".to_string()),
                project_id: None,
                agent_id: None,
                run_id: Some("r".to_string()),
            },
            text: text.to_string(),
            kinds: None,
            tags_any: Some(vec!["t".to_string()]),
            limit: 7,
            since_ms: None,
            until_ms: Some(3),
        };
        let statement = query_statement_of(&q);
        assert!(statement.starts_with(filter));
        assert!(!statement.contains("tenant_id = 'tenant-a'"));
    }
}

#[test]
fn test_scoped_statements_filter_by_tenant() {
    assert_eq!(
        select_scoped_statement("m-1", "acme"),
        "SELECT * FROM memory_items:⟨m-1⟩ WHERE tenant_id = 'acme'"
    );
    assert_eq!(
        delete_scoped_statement("m-1", "acme"),
        "DELETE memory_items:⟨m-1⟩ WHERE tenant_id = 'acme'"
    );
}

#[test]
fn test_quotes_in_texts_are_escaped() {
    let q = Query {
        scope: ScopeKey {
            tenant_id: "o'brien".to_string(),
            workspace_id: None,
            project_id: None,
            agent_id: None,
            run_id: None,
        },
        text: "it's \\ done".to_string(),
        kinds: None,
        tags_any: None,
        limit: 1,
        since_ms: None,
        until_ms: None,
    };
    assert_eq!(
        query_statement_of(&q),
        "SELECT * FROM memory_items WHERE tenant_id = 'o\\'brien' AND (content_text CONTAINS 'it\\'s \\\\ done' OR tags CONTAINS ['it\\'s \\\\ done']) ORDER BY importance DESC, created_at_ms DESC LIMIT 1"
    );
    assert_eq!(select_scoped_statement("m-1", "a'b"), "SELECT * FROM memory_items:⟨m-1⟩ WHERE tenant_id = 'a\\'b'");
}

#[test]
fn test_record_ids_are_bracketed_and_escaped() {
    assert_eq!(
        select_scoped_statement("x, memory_items --", "acme"),
        "SELECT * FROM memory_items:⟨x, memory_items --⟩ WHERE tenant_id = 'acme'"
    );
    assert_eq!(
        delete_scoped_statement("a⟩ b\\c", "acme"),
        "DELETE memory_items:⟨a\\⟩ b\\\\c⟩ WHERE tenant_id = 'acme'"
    );
}

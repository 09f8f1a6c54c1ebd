use mom::handlers::{search_limit, SemanticSearchRequest};
use mom::kernel::{Content, MemoryId, MemoryItem, MemoryKind, Query, ScopeKey, Scored};
use mom::recall::{
    age_at, age_now, finish_recall, item_to_text, plan_recall, text_match, text_match_lowered, TextMatch,
};

/// Thirty days in milliseconds, the window over which recency decays.
const RECENCY_DECAY_WINDOW_MS: u64 = 30 * 24 * 60 * 60 * 1000;

fn scope(tenant: &str) -> ScopeKey {
    ScopeKey {
        tenant_id: tenant.to_string(),
        workspace_id: None,
        project_id: None,
        agent_id: None,
        run_id: None,
    }
}

fn item(id: &str, content: Content) -> MemoryItem {
    MemoryItem {
        id: MemoryId(id.to_string()),
        scope: scope("test"),
        kind: MemoryKind::Event,
        created_at_ms: 0,
        content,
        tags: vec![],
        importance: 0.5f32.to_bits(),
        confidence: 1.0f32.to_bits(),
        source: "system".to_string(),
        ttl_ms: None,
        meta: Default::default(),
        embedding: None,
        embedding_model: None,
    }
}

#[test]
fn test_text_match_exact() {
    assert_eq!(text_match("deployment", "deployment"), TextMatch::Exact);
}

#[test]
fn test_text_match_substring() {
    assert_eq!(
        text_match("production deployment complete", "deployment"),
        TextMatch::Substring { position: 11, length: 30 }
    );
}

#[test]
fn test_text_match_no_match() {
    assert_eq!(text_match("hello world", "deployment"), TextMatch::NoMatch);
}

#[test]
fn test_text_match_case_insensitive() {
    assert_eq!(text_match("DEPLOYMENT", "deployment"), TextMatch::Exact);
    assert_eq!(text_match("deployment", "DEPLOYMENT"), TextMatch::Exact);
    assert_eq!(text_match("Big Deployment", "dePLOYment"), TextMatch::Substring { position: 4, length: 14 });
}

#[test]
fn test_text_match_early_position() {
    assert_eq!(text_match("deployment started", "deployment"), TextMatch::Substring { position: 0, length: 18 });
    assert_eq!(
        text_match("we started a deployment", "deployment"),
        TextMatch::Substring { position: 13, length: 23 }
    );
}

#[test]
fn test_text_match_first_of_multiple_occurrences() {
    assert_eq!(
        text_match("deployment and deployment and deployment", "deployment"),
        TextMatch::Substring { position: 0, length: 40 }
    );
}

#[test]
fn test_text_match_empty_query() {
    assert_eq!(text_match("hello world", ""), TextMatch::NoMatch);
}

#[test]
fn test_text_match_positions_in_bytes() {
    assert_eq!(
        text_match("é deployment", "DEPLOYMENT"),
        TextMatch::Substring { position: 3, length: 13 }
    );
    assert_eq!(text_match("", "x"), TextMatch::NoMatch);
    assert_eq!(text_match("Hello", "hELLO"), TextMatch::Exact);
}

#[test]
fn test_age_current() {
    let now = chrono::Utc::now().timestamp_millis();
    assert!(age_now(now) < 60_000);
    assert_eq!(age_now(now + 3_600_000), 0);
}

#[test]
fn test_age_old() {
    let thirty_one_days_ago = chrono::Utc::now().timestamp_millis() - (31 * 24 * 60 * 60 * 1000);
    assert!(age_now(thirty_one_days_ago) > RECENCY_DECAY_WINDOW_MS);
}

#[test]
fn test_age_one_week_old() {
    let one_week: u64 = 7 * 24 * 60 * 60 * 1000;
    let one_week_ago = chrono::Utc::now().timestamp_millis() - one_week as i64;
    let age = age_now(one_week_ago);
    assert!(age >= one_week && age < one_week + 60_000);
    assert!(age < RECENCY_DECAY_WINDOW_MS);
}

#[test]
fn test_age_at_values() {
    assert_eq!(age_at(1000, 400), 600);
    assert_eq!(age_at(400, 1000), 0);
    assert_eq!(age_at(i64::MAX, i64::MIN), u64::MAX);
}

#[test]
fn test_item_to_text_text_content() {
    let it = item("test", Content::Text("deployment failed".to_string()));
    let text = item_to_text(&it);
    assert_eq!(text, "deployment failed");
}

#[test]
fn test_item_to_text_json_content() {
    let mut obj = serde_json::Map::new();
    obj.insert("status".to_string(), serde_json::Value::String("failed".to_string()));
    obj.insert("reason".to_string(), serde_json::Value::String("timeout".to_string()));
    let json_val = serde_json::Value::Object(obj);
    let it = item("test", Content::Json(json_val.to_string()));

    let text = item_to_text(&it);
    assert!(text.contains("failed"));
}

#[test]
fn test_item_to_text_text_json_content() {
    let it = item(
        "test",
        Content::TextJson { text: "summary".to_string(), json: "{\"a\":1}".to_string() },
    );
    assert_eq!(item_to_text(&it), "summary {\"a\":1}");
}

#[test]
fn test_recall_empty_query_returns_all() {
    let query_text = "";
    assert!(query_text.is_empty());

    let q = Query {
        scope: scope(""),
        text: query_text.to_string(),
        kinds: None,
        tags_any: None,
        limit: 7,
        since_ms: None,
        until_ms: None,
    };
    let plan = plan_recall(q);
    assert!(!plan.rank);
    assert_eq!(plan.query.limit, 7);
    assert_eq!(plan.final_limit, 7);
    assert_eq!(plan.query.scope.tenant_id, "default");
}

#[test]
fn test_recall_with_text_widens_candidates() {
    let mk = |limit: usize| Query {
        scope: scope("acme"),
        text: "deployment".to_string(),
        kinds: None,
        tags_any: None,
        limit,
        since_ms: None,
        until_ms: None,
    };
    let plan = plan_recall(mk(10));
    assert!(plan.rank);
    assert_eq!(plan.query.limit, 50);
    assert_eq!(plan.final_limit, 10);
    assert_eq!(plan.query.scope.tenant_id, "acme");
    assert_eq!(plan_recall(mk(500)).query.limit, 1000);
}

#[test]
fn test_finish_recall_orders_and_filters() {
    let scored = vec![
        Scored { score: 0.7f32.to_bits(), item: item("a", Content::Text("a".to_string())) },
        Scored { score: 0.0f32.to_bits(), item: item("b", Content::Text("b".to_string())) },
        Scored { score: 0.9f32.to_bits(), item: item("c", Content::Text("c".to_string())) },
        Scored { score: 0.7f32.to_bits(), item: item("d", Content::Text("d".to_string())) },
        Scored { score: (-0.5f32).to_bits(), item: item("e", Content::Text("e".to_string())) },
    ];
    let out = finish_recall(scored, 2);
    let ids: Vec<&str> = out.iter().map(|s| s.item.id.0.as_str()).collect();
    assert_eq!(ids, vec!["c", "a"]);
}

#[test]
fn test_semantic_search_request_limit_validation() {
    let req = SemanticSearchRequest { query: "test".to_string(), limit: Some(500) };

    let limit = search_limit(req.limit);
    assert_eq!(limit, 100);
    assert_eq!(req.query, "test");
    assert_eq!(search_limit(None), 10);
}

#[test]
fn test_embedding_disabled_error() {
    let error_msg = "Embeddings not available";
    assert!(!error_msg.is_empty());
    assert!(error_msg.contains("Embeddings"));
}

#[test]
fn test_recall_candidates_cover_requested_limit() {
    let mk = |limit: usize| Query {
        scope: scope("acme"),
        text: "deployment".to_string(),
        kinds: None,
        tags_any: None,
        limit,
        since_ms: None,
        until_ms: None,
    };
    for limit in [0usize, 1, 199, 200, 201, 1000] {
        let plan = plan_recall(mk(limit));
        assert!(plan.query.limit >= limit);
        assert!(plan.query.limit <= 1000);
    }
    let plan = plan_recall(mk(1001));
    assert_eq!(plan.query.limit, 1000);
    assert_eq!(plan.final_limit, 1001);
}

#[test]
fn test_text_match_lowered_compares_as_given() {
    assert_eq!(text_match_lowered("deployment", "deployment"), TextMatch::Exact);
    assert_eq!(text_match_lowered("DEPLOYMENT", "deployment"), TextMatch::NoMatch);
    assert_eq!(
        text_match_lowered("a deployment and a deployment", "deployment"),
        TextMatch::Substring { position: 2, length: 29 }
    );
    assert_eq!(text_match_lowered("ñandú", "dú"), TextMatch::Substring { position: 4, length: 7 });
    assert_eq!(text_match_lowered("abc", ""), TextMatch::Substring { position: 0, length: 3 });
}

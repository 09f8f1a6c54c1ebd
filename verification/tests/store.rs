use mom::memory::{Content, MemoryItem, MemoryKind, ScopeKey, Source};
use mom::store::{InMemoryStore, Query};

fn scope() -> ScopeKey {
    ScopeKey {
        tenant_id: "acme".to_string(),
        workspace_id: None,
        project_id: None,
        agent_id: None,
        run_id: None,
    }
}

fn memory(id: &str, kind: MemoryKind, importance: f32, tags: &[&str]) -> MemoryItem {
    let mut item = MemoryItem::new(scope(), kind, Content::Text(id.to_string()), Source::User)
        .with_tags(tags.iter().map(|t| t.to_string()).collect());
    item.id = id.to_string();
    item.importance = importance.to_bits();
    item
}

fn ids(results: &[mom::store::ScoredMemory]) -> Vec<String> {
    results.iter().map(|s| s.item.id.clone()).collect()
}

fn all() -> Query {
    Query { text: None, tags: None, kind: None, limit: None, offset: None }
}

#[test]
fn test_put_then_get() {
    let mut store = InMemoryStore::new();
    let a = memory("a", MemoryKind::Event, 0.5, &[]);
    store.put(&a);
    let got = store.get("a").expect("stored");
    assert_eq!(format!("{:?}", got), format!("{:?}", a));
    assert!(store.get("b").is_none());
}

#[test]
fn test_put_replaces_same_id() {
    let mut store = InMemoryStore::new();
    store.put(&memory("a", MemoryKind::Event, 0.5, &[]));
    store.put(&memory("b", MemoryKind::Fact, 0.1, &[]));
    store.put(&memory("a", MemoryKind::Summary, 0.9, &[]));
    assert_eq!(store.get("a").unwrap().kind, MemoryKind::Summary);
    assert_eq!(store.query(&all()).len(), 2);
}

#[test]
fn test_delete() {
    let mut store = InMemoryStore::new();
    store.batch_put(&[memory("a", MemoryKind::Event, 0.5, &[]), memory("b", MemoryKind::Event, 0.6, &[])]);
    store.delete("a");
    assert!(store.get("a").is_none());
    assert!(store.get("b").is_some());
    store.delete("missing");
    assert_eq!(ids(&store.query(&all())), vec!["b".to_string()]);
}

#[test]
fn test_query_orders_by_importance_stably() {
    let mut store = InMemoryStore::new();
    store.batch_put(&[
        memory("low", MemoryKind::Event, 0.1, &["x"]),
        memory("high", MemoryKind::Event, 0.9, &["y"]),
        memory("mid1", MemoryKind::Fact, 0.5, &["x", "z"]),
        memory("mid2", MemoryKind::Event, 0.5, &[]),
    ]);
    assert_eq!(ids(&store.query(&all())), vec!["high", "mid1", "mid2", "low"]);
    let scores: Vec<f32> = store.query(&all()).iter().map(|s| f32::from_bits(s.score)).collect();
    assert_eq!(scores, vec![0.9, 0.5, 0.5, 0.1]);
}

#[test]
fn test_query_filters_and_limit() {
    let mut store = InMemoryStore::new();
    store.batch_put(&[
        memory("low", MemoryKind::Event, 0.1, &["x"]),
        memory("high", MemoryKind::Event, 0.9, &["y"]),
        memory("mid1", MemoryKind::Fact, 0.5, &["x", "z"]),
        memory("mid2", MemoryKind::Event, 0.5, &[]),
    ]);
    let by_kind = Query { kind: Some(MemoryKind::Event), ..all() };
    assert_eq!(ids(&store.query(&by_kind)), vec!["high", "mid2", "low"]);
    let by_tag = Query { tags: Some(vec!["x".to_string()]), ..all() };
    assert_eq!(ids(&store.query(&by_tag)), vec!["mid1", "low"]);
    let no_tags = Query { tags: Some(vec![]), ..all() };
    assert!(store.query(&no_tags).is_empty());
    let limited = Query { limit: Some(1), ..all() };
    assert_eq!(ids(&store.query(&limited)), vec!["high"]);
}

#[test]
fn test_query_default_limit_is_ten() {
    let mut store = InMemoryStore::new();
    let items: Vec<MemoryItem> = (0..12).map(|i| memory(&format!("m{}", i), MemoryKind::Event, 0.5, &[])).collect();
    store.batch_put(&items);
    assert_eq!(store.query(&all()).len(), 10);
}

#[test]
fn test_negative_and_zero_importance_order() {
    let mut store = InMemoryStore::new();
    store.batch_put(&[
        memory("neg", MemoryKind::Event, -1.0, &[]),
        memory("negzero", MemoryKind::Event, -0.0, &[]),
        memory("zero", MemoryKind::Event, 0.0, &[]),
        memory("pos", MemoryKind::Event, 0.25, &[]),
    ]);
    assert_eq!(ids(&store.query(&all())), vec!["pos", "negzero", "zero", "neg"]);
}

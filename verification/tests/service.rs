use mom::handlers::{
    embedding_failed, plan_semantic_search, IngestAll, IngestAllAction, IngestSource, IngestSourceAction, SourceOutcome, fetch_failed, ingestion_failed, ingestion_scope, ingestion_sources, ingestion_succeeded,
    source_endpoint_variable, store_failed, unknown_source, ApiError as HandlerError,
    IngestionRequest, IngestionStatus,
};
use mom::service::ApiError;
use mom::text::{format_i64, format_usize, parse_usize, same_text};

#[test]
fn test_api_error_responses() {
    assert_eq!(ApiError::NotFound.response_parts(), (404, "Not found".to_string()));
    assert_eq!(ApiError::Internal("db down".to_string()).response_parts(), (500, "db down".to_string()));
    assert_eq!(HandlerError::NotFound.response_parts(), (404, "Not found".to_string()));
    assert_eq!(
        HandlerError::BadRequest("tenant_id is required".to_string()).response_parts(),
        (400, "tenant_id is required".to_string())
    );
    assert_eq!(
        HandlerError::Internal("secret".to_string()).response_parts(),
        (500, "Internal server error".to_string())
    );
}

#[test]
fn test_ingestion_messages() {
    let r = ingestion_succeeded("oxidizedrag".to_string(), 42);
    assert_eq!(r.source, "oxidizedrag");
    assert_eq!(r.count, 42);
    assert_eq!(r.message, "Successfully ingested 42 memories");
    let f = ingestion_failed("datafabric".to_string(), "timeout");
    assert_eq!(f.count, 0);
    assert_eq!(f.message, "Failed: timeout");
    let status = IngestionStatus { sources: 3, poll_interval_secs: 300 };
    assert_eq!(status.sources, 3);
    assert_eq!(status.poll_interval_secs, 300);
}

#[test]
fn test_ingestion_errors() {
    match unknown_source("x") {
        HandlerError::BadRequest(m) => assert_eq!(m, "Unknown source: x"),
        other => panic!("unexpected {:?}", other),
    }
    match fetch_failed("x", "down") {
        HandlerError::Internal(m) => assert_eq!(m, "Failed to fetch from x: down"),
        other => panic!("unexpected {:?}", other),
    }
    match store_failed("full") {
        HandlerError::Internal(m) => assert_eq!(m, "Failed to store memory: full"),
        other => panic!("unexpected {:?}", other),
    }
}

#[test]
fn test_ingestion_scope_and_sources() {
    let scope = ingestion_scope(IngestionRequest {
        tenant_id: "test-tenant".to_string(),
        workspace_id: Some("workspace1".to_string()),
        project_id: Some("project1".to_string()),
        agent_id: Some("agent:analyzer".to_string()),
        run_id: Some("run:001".to_string()),
    });
    assert_eq!(scope.tenant_id, "test-tenant");
    assert_eq!(scope.agent_id, Some("agent:analyzer".to_string()));
    assert_eq!(ingestion_sources(), vec!["oxidizedrag", "oxidizedgraph", "datafabric"]);
    assert_eq!(source_endpoint_variable("oxidizedgraph"), Some("OXIDIZEDGRAPH_URL".to_string()));
    assert_eq!(source_endpoint_variable("other"), None);
}

#[test]
fn test_decimal_formatting() {
    assert_eq!(format_usize(0), "0");
    assert_eq!(format_usize(1234567890), "1234567890");
    assert_eq!(format_i64(i64::MIN), i64::MIN.to_string());
    assert_eq!(format_i64(-7), "-7");
    for n in [0usize, 9, 10, 99, 100, 65536, usize::MAX] {
        assert_eq!(parse_usize(&format_usize(n)), Some(n));
    }
    assert!(same_text("abc", "abc"));
    assert!(!same_text("abc", "abd"));
}

#[test]
fn test_ingest_all_visits_sources_in_order() {
    let mut progress = IngestAll::start();
    let mut visited = Vec::new();
    let mut puts = Vec::new();
    let mut outcomes = vec![
        SourceOutcome::Fetched(3),
        SourceOutcome::Missing,
        SourceOutcome::Failed("connection refused".to_string()),
    ]
    .into_iter();
    loop {
        match progress.action() {
            IngestAllAction::Fetch(source) => {
                visited.push(source);
                progress = progress.step(outcomes.next().unwrap());
            }
            IngestAllAction::Put(k) => {
                puts.push(k);
                // The second memory cannot be stored; it is skipped.
                progress = progress.stored(k != 1);
            }
            IngestAllAction::Finish => break,
        }
    }
    assert_eq!(visited, vec!["oxidizedrag", "oxidizedgraph", "datafabric"]);
    assert_eq!(puts, vec![0, 1, 2]);
    assert_eq!(progress.next, 3);
    assert_eq!(progress.responses.len(), 2);
    assert_eq!(progress.responses[0].source, "oxidizedrag");
    assert_eq!(progress.responses[0].count, 3);
    assert_eq!(progress.responses[0].message, "Successfully ingested 3 memories");
    assert_eq!(progress.responses[1].source, "datafabric");
    assert_eq!(progress.responses[1].count, 0);
    assert_eq!(progress.responses[1].message, "Failed: connection refused");
}

#[test]
fn test_ingest_all_with_no_sources_registered() {
    let mut progress = IngestAll::start();
    while let IngestAllAction::Fetch(_) = progress.action() {
        progress = progress.step(SourceOutcome::Missing);
    }
    assert!(progress.responses.is_empty());
}

#[test]
fn test_ingest_all_reports_empty_source_at_once() {
    let progress = IngestAll::start().step(SourceOutcome::Fetched(0));
    assert_eq!(progress.next, 1);
    assert!(progress.storing.is_none());
    assert_eq!(progress.responses[0].message, "Successfully ingested 0 memories");
}

#[test]
fn test_ingest_source_stores_in_order_until_a_failure() {
    let mut progress = IngestSource::start("oxidizedrag".to_string(), SourceOutcome::Fetched(4)).unwrap();
    let mut puts = Vec::new();
    let mut failure = None;
    while let IngestSourceAction::Put(k) = progress.action() {
        puts.push(k);
        let stored = if k == 2 { Err("disk full".to_string()) } else { Ok(()) };
        match progress.step(stored) {
            Ok(p) => progress = p,
            Err(e) => {
                failure = Some(e);
                break;
            }
        }
    }
    assert_eq!(puts, vec![0, 1, 2]);
    match failure {
        Some(HandlerError::Internal(m)) => assert_eq!(m, "Failed to store memory: disk full"),
        other => panic!("unexpected {:?}", other),
    }
}

#[test]
fn test_ingest_source_reports_what_it_stored() {
    let mut progress = IngestSource::start("datafabric".to_string(), SourceOutcome::Fetched(2)).unwrap();
    while let IngestSourceAction::Put(_) = progress.action() {
        progress = progress.step(Ok(())).unwrap();
    }
    let r = progress.finish();
    assert_eq!(r.source, "datafabric");
    assert_eq!(r.count, 2);
    assert_eq!(r.message, "Successfully ingested 2 memories");
}

#[test]
fn test_ingest_source_unknown_or_failed_fetch() {
    match IngestSource::start("nope".to_string(), SourceOutcome::Missing) {
        Err(HandlerError::BadRequest(m)) => assert_eq!(m, "Unknown source: nope"),
        other => panic!("unexpected {:?}", other),
    }
    match IngestSource::start("oxidizedrag".to_string(), SourceOutcome::Failed("timeout".to_string())) {
        Err(HandlerError::Internal(m)) => assert_eq!(m, "Failed to fetch from oxidizedrag: timeout"),
        other => panic!("unexpected {:?}", other),
    }
}

#[test]
fn test_semantic_search_plan() {
    match plan_semantic_search(None, true, Some(5)) {
        Err(HandlerError::BadRequest(m)) => assert_eq!(m, "tenant_id is required"),
        other => panic!("unexpected {:?}", other),
    }
    match plan_semantic_search(Some("acme".to_string()), false, Some(5)) {
        Err(HandlerError::Internal(m)) => assert_eq!(m, "Embeddings not available"),
        other => panic!("unexpected {:?}", other),
    }
    let plan = plan_semantic_search(Some("acme".to_string()), true, Some(500)).unwrap();
    assert_eq!(plan.scope.tenant_id, "acme");
    assert_eq!(plan.scope.workspace_id, None);
    assert_eq!(plan.limit, 100);
    match embedding_failed() {
        HandlerError::Internal(m) => assert_eq!(m, "Embedding unavailable"),
        other => panic!("unexpected {:?}", other),
    }
}

use trie_semantic_search::config::Config;
use trie_semantic_search::errors::SearchError;
use trie_semantic_search::search::{MatchType, SearchEngine, SearchQuery};
use trie_semantic_search::{CaseMetadata, DocRef, Jurisdiction, SearchConfig};

fn make_case(id: u128, name: &str, court: &str, decision_date: i64) -> CaseMetadata {
    CaseMetadata {
        id,
        name: name.to_string(),
        citation: format!("{} U.S. 1 (1950)", id),
        court: court.to_string(),
        decision_date,
        judges: vec!["Warren".to_string()],
        topics: vec!["constitutional".to_string()],
        full_text: format!("full text of {}", name),
        jurisdiction: Jurisdiction::Federal,
        citations: vec![],
        docket_number: None,
        source_url: None,
        word_count: 4,
        ingestion_date: 0,
    }
}

fn engine() -> SearchEngine {
    SearchEngine::new(Config::default()).unwrap()
}

fn query(text: &str) -> SearchQuery {
    SearchQuery {
        query: text.to_string(),
        max_results: None,
        court_filter: None,
        date_range: None,
        config: SearchConfig::default(),
    }
}

fn seed_case(engine: &mut SearchEngine, id: u128, name: &str, court: &str, date: i64) {
    engine.store_case_metadata(make_case(id, name, court, date)).unwrap();
    engine.insert_case_name(name, id).unwrap();
    engine
        .add_document(DocRef { case_id: id, paragraph_index: 0, char_offset: None }, name)
        .unwrap();
}

#[test]
fn too_short_query_is_rejected_before_any_work() {
    let mut e = engine();
    let err = e.search_with_params_at(query("a"), 0).unwrap_err();
    match err {
        SearchError::InvalidSearchQuery { reason, .. } => {
            assert!(reason.contains("too short"));
        },
        other => panic!("unexpected error {:?}", other),
    }
}

#[test]
fn too_long_query_is_rejected() {
    let mut e = engine();
    let long = "x".repeat(1001);
    let err = e.search_with_params_at(query(&long), 0).unwrap_err();
    assert!(matches!(err, SearchError::InvalidSearchQuery { .. }));
}

#[test]
fn lexical_and_semantic_match_fuses_to_one_exact_result() {
    let mut e = engine();
    seed_case(&mut e, 1, "Brown v. Board of Education", "Supreme Court", 100);
    let results = e.search_with_params_at(query("brown v. board of education"), 0).unwrap();
    let brown: Vec<_> = results.iter().filter(|r| r.case_metadata.id == 1).collect();
    assert_eq!(brown.len(), 1, "exactly one result for the case");
    assert!(matches!(brown[0].match_type, MatchType::Exact));
    assert_eq!(brown[0].score, 2_000_000);
}

#[test]
fn semantic_only_match_carries_similarity_score() {
    let mut e = engine();
    e.store_case_metadata(make_case(3, "Gideon v. Wainwright", "Supreme Court", 10)).unwrap();
    e.add_document(DocRef { case_id: 3, paragraph_index: 0, char_offset: None }, "counsel")
        .unwrap();
    let results = e.search_with_params_at(query("right to counsel"), 0).unwrap();
    assert_eq!(results.len(), 1);
    assert!(matches!(results[0].match_type, MatchType::Semantic));
    assert_eq!(results[0].score, 1_000_000);
}

#[test]
fn cached_query_returns_identical_results_until_ttl_elapses() {
    let mut e = engine();
    seed_case(&mut e, 1, "Miranda v. Arizona", "Supreme Court", 50);
    let first = e.search_with_params_at(query("miranda v. arizona"), 1000).unwrap();
    let second = e.search_with_params_at(query("miranda v. arizona"), 1000 + 3599).unwrap();
    assert_eq!(first.len(), second.len());
    for (a, b) in first.iter().zip(second.iter()) {
        assert_eq!(a.case_metadata.id, b.case_metadata.id);
        assert_eq!(a.score, b.score);
        assert_eq!(a.snippet, b.snippet);
    }
    let third = e.search_with_params_at(query("miranda v. arizona"), 1000 + 3600).unwrap();
    assert_eq!(first.len(), third.len());
    for (a, b) in first.iter().zip(third.iter()) {
        assert_eq!(a.case_metadata.id, b.case_metadata.id);
        assert_eq!(a.score, b.score);
    }
}

#[test]
fn court_filter_excludes_other_courts() {
    let mut e = engine();
    seed_case(&mut e, 1, "freedom of speech", "Supreme Court", 10);
    seed_case(&mut e, 2, "freedom of speech", "Circuit Court", 20);
    let mut q = query("freedom of speech");
    q.court_filter = Some(vec!["Supreme Court".to_string()]);
    let results = e.search_with_params_at(q, 0).unwrap();
    assert!(!results.is_empty());
    for r in &results {
        assert_eq!(r.case_metadata.court, "Supreme Court");
    }
}

#[test]
fn date_range_filter_is_inclusive() {
    let mut e = engine();
    seed_case(&mut e, 1, "equal protection", "Supreme Court", 100);
    seed_case(&mut e, 2, "equal protection", "Supreme Court", 200);
    seed_case(&mut e, 3, "equal protection", "Supreme Court", 300);
    let mut q = query("equal protection");
    q.date_range = Some((100, 200));
    let results = e.search_with_params_at(q, 0).unwrap();
    let mut ids: Vec<u128> = results.iter().map(|r| r.case_metadata.id).collect();
    ids.sort();
    assert_eq!(ids, vec![1, 2]);
}

#[test]
fn truncation_returns_only_the_top_results() {
    let mut e = engine();
    for id in 1..=10u128 {
        seed_case(&mut e, id, "habeas corpus petition", "Supreme Court", id as i64);
    }
    let mut q = query("habeas corpus petition");
    q.max_results = Some(3);
    let results = e.search_with_params_at(q, 0).unwrap();
    assert_eq!(results.len(), 3);
    for pair in results.windows(2) {
        assert!(pair[0].score >= pair[1].score);
    }
}

#[test]
fn results_are_sorted_by_descending_score() {
    let mut e = engine();
    // One lexical match (weight 2.0) and one semantic-only match (1.0).
    seed_case(&mut e, 1, "plessy v. ferguson", "Supreme Court", 10);
    e.store_case_metadata(make_case(2, "unrelated name", "Supreme Court", 20)).unwrap();
    e.add_document(DocRef { case_id: 2, paragraph_index: 0, char_offset: None }, "other")
        .unwrap();
    let results = e.search_with_params_at(query("plessy v. ferguson"), 0).unwrap();
    assert_eq!(results.len(), 2);
    assert_eq!(results[0].case_metadata.id, 1);
    assert!(matches!(results[0].match_type, MatchType::Exact));
    assert_eq!(results[1].case_metadata.id, 2);
    assert!(matches!(results[1].match_type, MatchType::Semantic));
    assert!(results[0].score >= results[1].score);
}

#[test]
fn missing_metadata_skips_the_result() {
    let mut e = engine();
    // The trie knows the case but the store holds no record for it.
    e.insert_case_name("korematsu v. united states", 9).unwrap();
    let results = e.search_with_params_at(query("korematsu v. united states"), 0).unwrap();
    assert!(results.is_empty());
}

#[test]
fn snippet_names_case_and_paragraph() {
    let mut e = engine();
    seed_case(&mut e, 7, "mapp v. ohio", "Supreme Court", 10);
    let results = e.search_with_params_at(query("mapp v. ohio"), 0).unwrap();
    assert_eq!(results.len(), 1);
    assert_eq!(results[0].snippet, "Snippet for case 7 paragraph 0");
}

#[test]
fn simple_search_uses_stock_parameters() {
    let mut e = engine();
    seed_case(&mut e, 1, "terry v. ohio", "Supreme Court", 10);
    let results = e.search("terry v. ohio").unwrap();
    assert!(!results.is_empty());
    assert_eq!(results[0].case_metadata.id, 1);
}

#[test]
fn engine_statistics_count_everything() {
    let mut e = engine();
    seed_case(&mut e, 1, "baker v. carr", "Supreme Court", 10);
    seed_case(&mut e, 2, "reynolds v. sims", "Supreme Court", 20);
    let stats = e.get_stats();
    assert_eq!(stats.total_cases_indexed, 2);
    assert_eq!(stats.vector_index_stats.total_vectors, 2);
    assert_eq!(stats.vector_index_stats.dimension, 768);
    assert!(e.health_check().is_ok());
}

#[test]
fn error_classification_matches_the_taxonomy() {
    let timeout = SearchError::SearchTimeout { timeout_ms: 5 };
    assert!(timeout.is_recoverable());
    assert_eq!(timeout.category(), "search");
    assert!(timeout.recovery_suggestion().is_some());
    let invalid = SearchError::InvalidSearchQuery {
        query: "q".to_string(),
        reason: "too short".to_string(),
    };
    assert!(!invalid.is_recoverable());
    assert_eq!(invalid.category(), "search");
    assert!(invalid.recovery_suggestion().is_none());
    let config = SearchError::Config { message: "bad".to_string() };
    assert_eq!(config.category(), "configuration");
}

#[test]
fn default_configuration_is_validated() {
    let config = Config::default();
    assert_eq!(config.server.port, 8080);
    assert_eq!(config.vector.dimension, 768);
    assert_eq!(config.vector.hnsw.m, 16);
    assert_eq!(config.search.min_query_length, 2);
    assert_eq!(config.search.max_query_length, 1000);
    assert_eq!(config.search.query_cache_ttl_seconds, 3600);
    assert!(config.performance.worker_threads >= 1);
    assert_eq!(config.performance.cpu_pool_size, config.performance.worker_threads * 2);
    assert!(config.validate().is_ok());
    let mut broken = Config::default();
    broken.server.port = 0;
    match broken.validate().unwrap_err() {
        SearchError::ValidationFailed { field, .. } => assert_eq!(field, "server.port"),
        other => panic!("unexpected error {:?}", other),
    }
    let mut broken = Config::default();
    broken.vector.hnsw.m = 0;
    assert!(broken.validate().is_err());
}

#[test]
fn cache_disabled_engine_recomputes_each_time() {
    let mut config = Config::default();
    config.search.enable_query_cache = false;
    let mut e = SearchEngine::new(config).unwrap();
    seed_case(&mut e, 1, "gitlow v. new york", "Supreme Court", 10);
    let first = e.search_with_params_at(query("gitlow v. new york"), 0).unwrap();
    let second = e.search_with_params_at(query("gitlow v. new york"), 0).unwrap();
    assert_eq!(first.len(), 1);
    assert_eq!(second.len(), 1);
    assert_eq!(first[0].case_metadata.id, second[0].case_metadata.id);
    assert_eq!(e.get_stats().cache_stats.size, 0);
}

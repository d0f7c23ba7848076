use trie_semantic_search::config::{EmbeddingModelConfig, HnswConfig, VectorConfig};
use trie_semantic_search::errors::SearchError;
use trie_semantic_search::vector::{HnswIndex, VectorIndex};
use trie_semantic_search::DocRef;

fn hnsw_config(m: usize, ef_construction: usize, ef_search: usize) -> HnswConfig {
    HnswConfig { m, ef_construction, ef_search, max_elements: 10_000, index_path: String::new() }
}

fn vector_config(dimension: usize) -> VectorConfig {
    VectorConfig {
        model: EmbeddingModelConfig {
            model_path: String::new(),
            tokenizer_path: String::new(),
            model_type: "placeholder".to_string(),
            use_gpu: false,
            batch_size: 8,
            max_sequence_length: 128,
        },
        hnsw: hnsw_config(8, 100, 50),
        dimension,
        similarity_threshold: 500_000,
        max_ann_results: 100,
    }
}

fn doc(case_id: u128) -> DocRef {
    DocRef { case_id, paragraph_index: 0, char_offset: None }
}

/// A small deterministic generator for test vectors.
fn next_component(state: &mut u64) -> i64 {
    *state = state.wrapping_mul(6364136223846793005).wrapping_add(1442695040888963407);
    ((*state >> 33) % 2001) as i64 - 1000
}

#[test]
fn recall_of_an_inserted_vector_among_many() {
    let mut index = HnswIndex::new(hnsw_config(8, 200, 200), 4).unwrap();
    let mut state: u64 = 12345;
    for k in 0..100u128 {
        let v = vec![
            next_component(&mut state),
            next_component(&mut state),
            next_component(&mut state),
            next_component(&mut state),
        ];
        index.add_vector(doc(k), v).unwrap();
    }
    let target = vec![250_000, -40_000, 333_333, 777];
    index.add_vector(doc(555), target.clone()).unwrap();
    assert_eq!(index.size(), 101);
    let results = index.search(&target, 3).unwrap();
    assert!(!results.is_empty());
    assert_eq!(results[0].1, 0, "the identical vector sits at distance zero");
    assert_eq!(results[0].0.case_id, 555);
}

#[test]
fn search_results_are_sorted_by_distance() {
    let mut index = HnswIndex::new(hnsw_config(4, 50, 50), 2).unwrap();
    let mut state: u64 = 99;
    for k in 0..60u128 {
        let v = vec![next_component(&mut state), next_component(&mut state)];
        index.add_vector(doc(k), v).unwrap();
    }
    let results = index.search(&vec![0, 0], 10).unwrap();
    assert!(results.len() <= 10);
    assert!(!results.is_empty());
    for pair in results.windows(2) {
        assert!(pair[0].1 <= pair[1].1, "distances never decrease");
    }
}

#[test]
fn empty_index_search_returns_empty_not_error() {
    let index = HnswIndex::new(hnsw_config(4, 50, 50), 3).unwrap();
    let results = index.search(&vec![1, 2, 3], 5).unwrap();
    assert!(results.is_empty());
}

#[test]
fn mismatched_dimension_is_rejected() {
    let mut index = HnswIndex::new(hnsw_config(4, 50, 50), 3).unwrap();
    let err = index.add_vector(doc(1), vec![1, 2]).unwrap_err();
    assert!(matches!(err, SearchError::Config { .. }));
    let err = index.search(&vec![1, 2], 5).unwrap_err();
    assert!(matches!(err, SearchError::Config { .. }));
    assert_eq!(index.size(), 0);
}

#[test]
fn oversized_component_is_rejected() {
    let mut index = HnswIndex::new(hnsw_config(4, 50, 50), 2).unwrap();
    let err = index.add_vector(doc(1), vec![2_000_000, 0]).unwrap_err();
    assert!(matches!(err, SearchError::ValidationFailed { .. }));
}

#[test]
fn bad_configuration_is_rejected() {
    assert!(HnswIndex::new(hnsw_config(0, 50, 50), 4).is_err());
    assert!(HnswIndex::new(hnsw_config(4, 50, 50), 0).is_err());
    assert!(VectorIndex::new(vector_config(0)).is_err());
}

#[test]
fn vector_index_counts_documents_and_caches_embeddings() {
    let mut index = VectorIndex::new(vector_config(16)).unwrap();
    index.add_document(doc(1), "first amendment speech").unwrap();
    index.add_document(doc(2), "fourth amendment search").unwrap();
    let stats = index.get_stats();
    assert_eq!(stats.total_vectors, 2);
    assert_eq!(stats.dimension, 16);
    assert!(stats.cache_size >= 1);
}

#[test]
fn vector_index_search_reports_full_similarity_for_placeholder_embeddings() {
    let mut index = VectorIndex::new(vector_config(8)).unwrap();
    index.add_document(doc(1), "alpha").unwrap();
    index.add_document(doc(2), "beta").unwrap();
    let results = index.search("gamma", 5).unwrap();
    assert_eq!(results.len(), 2);
    for r in &results {
        assert_eq!(r.similarity_score, 1_000_000);
    }
}

#[test]
fn disk_round_trip_starts_fresh() {
    let loaded = VectorIndex::load_from_disk(vector_config(4), "anywhere").unwrap();
    assert_eq!(loaded.get_stats().total_vectors, 0);
    assert!(loaded.save_to_disk("anywhere").is_ok());
}

use trie_semantic_search::config::TrieConfig;
use trie_semantic_search::trie::TrieIndex;
use trie_semantic_search::DocRef;

fn trie_config() -> TrieConfig {
    TrieConfig {
        use_fst: false,
        index_case_names: true,
        index_citations: true,
        max_prefix_length: 50,
        index_path: String::new(),
        enable_memory_mapping: false,
    }
}

fn doc(case_id: u128, paragraph_index: usize) -> DocRef {
    DocRef { case_id, paragraph_index, char_offset: None }
}

#[test]
fn case_name_round_trip_any_case() {
    let mut trie = TrieIndex::new(trie_config()).unwrap();
    trie.insert_case_name("Brown v. Board of Education", 42).unwrap();
    let result = trie.search("brown v. board of education").unwrap();
    assert_eq!(result.exact_matches.len(), 1);
    assert_eq!(result.exact_matches[0].case_id, 42);
    assert_eq!(result.exact_matches[0].paragraph_index, 0);
    let mixed = trie.search("BROWN V. BOARD OF EDUCATION").unwrap();
    assert_eq!(mixed.exact_matches.len(), 1);
    assert_eq!(mixed.exact_matches[0].case_id, 42);
}

#[test]
fn missing_path_yields_empty_result_not_error() {
    let mut trie = TrieIndex::new(trie_config()).unwrap();
    trie.insert_case_name("Marbury v. Madison", 7).unwrap();
    let result = trie.search("entirely absent tokens").unwrap();
    assert!(result.exact_matches.is_empty());
    assert!(result.prefix_completions.is_empty());
    assert_eq!(result.total_matches, 0);
}

#[test]
fn empty_trie_search_is_empty() {
    let trie = TrieIndex::new(trie_config()).unwrap();
    let result = trie.search("anything at all").unwrap();
    assert!(result.exact_matches.is_empty());
    assert!(result.prefix_completions.is_empty());
    assert_eq!(result.total_matches, 0);
}

#[test]
fn citation_lookup_preserves_casing() {
    let mut trie = TrieIndex::new(trie_config()).unwrap();
    trie.insert_citation("347 U.S. 483 (1954)", doc(1, 3)).unwrap();
    let hit = trie.search("347 U.S. 483 (1954)").unwrap();
    assert_eq!(hit.exact_matches.len(), 1);
    assert_eq!(hit.exact_matches[0].case_id, 1);
    assert_eq!(hit.exact_matches[0].paragraph_index, 3);
    let miss = trie.search("347 u.s. 483 (1954)").unwrap();
    assert!(miss.exact_matches.is_empty());
}

#[test]
fn content_tokens_are_case_folded() {
    let mut trie = TrieIndex::new(trie_config()).unwrap();
    let tokens = vec!["Equal".to_string(), "Protection".to_string()];
    trie.insert_content(&tokens, doc(9, 2)).unwrap();
    let result = trie.search("equal protection").unwrap();
    assert_eq!(result.exact_matches.len(), 1);
    assert_eq!(result.exact_matches[0].case_id, 9);
}

#[test]
fn repeated_insertion_accumulates_references() {
    let mut trie = TrieIndex::new(trie_config()).unwrap();
    trie.insert_case_name("Roe v. Wade", 5).unwrap();
    trie.insert_case_name("Roe v. Wade", 6).unwrap();
    let result = trie.search("roe v. wade").unwrap();
    assert_eq!(result.exact_matches.len(), 2);
    let ids: Vec<u128> = result.exact_matches.iter().map(|d| d.case_id).collect();
    assert!(ids.contains(&5));
    assert!(ids.contains(&6));
}

#[test]
fn completions_follow_an_exact_match_and_stay_capped() {
    let mut trie = TrieIndex::new(trie_config()).unwrap();
    trie.insert_case_name("Miller", 1).unwrap();
    for k in 0..15u128 {
        let name = format!("Miller extension{}", k);
        trie.insert_case_name(&name, 100 + k).unwrap();
    }
    let result = trie.search("miller").unwrap();
    assert_eq!(result.exact_matches.len(), 1);
    assert!(result.prefix_completions.len() <= 10);
    assert!(!result.prefix_completions.is_empty());
    for completion in &result.prefix_completions {
        assert!(completion.starts_with("miller "));
    }
    assert_eq!(
        result.total_matches,
        result.exact_matches.len() + result.prefix_completions.len()
    );
}

#[test]
fn name_matches_take_precedence_over_content() {
    let mut trie = TrieIndex::new(trie_config()).unwrap();
    trie.insert_case_name("due process", 11).unwrap();
    let tokens = vec!["due".to_string(), "process".to_string()];
    trie.insert_content(&tokens, doc(22, 0)).unwrap();
    let result = trie.search("due process").unwrap();
    assert_eq!(result.exact_matches.len(), 1);
    assert_eq!(result.exact_matches[0].case_id, 11);
}

#[test]
fn disk_operations_are_not_offered() {
    let trie = TrieIndex::new(trie_config()).unwrap();
    assert!(TrieIndex::load_from_disk("anywhere").is_err());
    assert!(trie.save_to_disk("anywhere").is_ok());
    assert!(trie.get_completions("pre", 10).unwrap().is_empty());
}

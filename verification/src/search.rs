//! The hybrid search engine: query validation, cache lookup, the lexical
//! and semantic stages, score fusion with deduplication, filtering,
//! truncation, and cache write-back, each step against an exact contract.

use vstd::prelude::*;

use crate::assoc::{
    assoc_find, lemma_assoc_find_characterization, lemma_assoc_find_push,
    lemma_assoc_find_same_keys,
};
use crate::config::Config;
use crate::errors::SearchError;
use crate::storage::MetadataStore;
use crate::text::{str_eq, dec_digits, u64_to_string};
use crate::trie::TrieIndex;
use crate::vector::{
    distance_spec, embedding_spec, similarity_of, VectorIndex, VectorSearchResult,
};
use crate::{CaseId, CaseMetadata, CaseMetadataModel, DocRef, SearchConfig};

verus! {

/// How many semantic candidates the engine over-fetches before filtering.
pub const SEMANTIC_FETCH_WIDTH: usize = 50;

/// Type of match found.
#[derive(Debug, Clone, Copy, PartialEq, Eq, Structural)]
pub enum MatchType {
    /// Exact text match from trie.
    Exact,
    /// Prefix match from trie.
    Prefix,
    /// Semantic similarity match.
    Semantic,
    /// Case name match.
    CaseName,
    /// Citation match.
    Citation,
}

/// Type of text highlight.
#[derive(Debug, Clone, Copy, PartialEq, Eq, Structural)]
pub enum HighlightType {
    ExactMatch,
    SemanticMatch,
    CaseName,
    Citation,
}

/// Text highlighting information.
#[derive(Debug, Clone, Copy, PartialEq, Eq, Structural)]
pub struct TextHighlight {
    /// Start position in snippet.
    pub start: usize,
    /// End position in snippet.
    pub end: usize,
    /// Highlight type.
    pub highlight_type: HighlightType,
}

/// Search query with parameters. The date range bounds are day numbers, the
/// same scale as [`CaseMetadata::decision_date`].
#[derive(Debug)]
pub struct SearchQuery {
    /// Query text.
    pub query: String,
    /// Maximum number of results.
    pub max_results: Option<usize>,
    /// Court filter.
    pub court_filter: Option<Vec<String>>,
    /// Date range filter, inclusive day numbers.
    pub date_range: Option<(i64, i64)>,
    /// Search configuration.
    pub config: SearchConfig,
}

/// Search result with metadata. The score is a fixed-point value on the
/// [`crate::SCORE_SCALE`] scale.
#[derive(Debug)]
pub struct SearchResult {
    /// Case metadata.
    pub case_metadata: CaseMetadata,
    /// Relevance score.
    pub score: u32,
    /// Match type (exact, semantic, and so on).
    pub match_type: MatchType,
    /// Text snippet showing the match.
    pub snippet: String,
    /// Highlighted query terms in snippet.
    pub highlights: Vec<TextHighlight>,
}

/// Mathematical image of a [`SearchResult`].
pub ghost struct SearchResultModel {
    pub case_metadata: CaseMetadataModel,
    pub score: u32,
    pub match_type: MatchType,
    pub snippet: Seq<char>,
    pub highlights: Seq<TextHighlight>,
}

impl SearchResult {
    /// What a result says, independent of string allocation.
    pub open spec fn model(&self) -> SearchResultModel {
        SearchResultModel {
            case_metadata: self.case_metadata.model(),
            score: self.score,
            match_type: self.match_type,
            snippet: self.snippet@,
            highlights: self.highlights@,
        }
    }
}

/// The images of a result list.
pub open spec fn results_model(s: Seq<SearchResult>) -> Seq<SearchResultModel> {
    s.map_values(|r: SearchResult| r.model())
}

/// Copies a highlight list.
fn clone_highlights(v: &Vec<TextHighlight>) -> (r: Vec<TextHighlight>)
    ensures
        r@ == v@,
{
    let mut r: Vec<TextHighlight> = Vec::new();
    let mut i: usize = 0;
    while i < v.len()
        invariant
            i <= v@.len(),
            r@ =~= v@.take(i as int),
        decreases v@.len() - i,
    {
        r.push(v[i]);
        proof {
            assert(r@ =~= v@.take(i + 1 as int));
        }
        i += 1;
    }
    proof {
        assert(v@.take(v@.len() as int) =~= v@);
    }
    r
}

impl Clone for SearchResult {
    fn clone(&self) -> (r: Self)
        ensures
            r.model() == self.model(),
    {
        SearchResult {
            case_metadata: self.case_metadata.clone(),
            score: self.score,
            match_type: self.match_type,
            snippet: self.snippet.clone(),
            highlights: clone_highlights(&self.highlights),
        }
    }
}

/// Copies a result list, keeping what it says.
fn clone_results(v: &Vec<SearchResult>) -> (r: Vec<SearchResult>)
    ensures
        results_model(r@) == results_model(v@),
        r@.len() == v@.len(),
{
    let mut r: Vec<SearchResult> = Vec::new();
    let mut i: usize = 0;
    while i < v.len()
        invariant
            i <= v@.len(),
            r@.len() == i,
            forall|k: int| 0 <= k < i ==> (#[trigger] r@[k]).model() == v@[k].model(),
        decreases v@.len() - i,
    {
        let c = v[i].clone();
        r.push(c);
        i += 1;
    }
    proof {
        assert(results_model(r@) =~= results_model(v@));
    }
    r
}

/// Cached search result: the list computed for a query key, when it was
/// stored, and how long it lives. Timestamps are Unix seconds.
#[derive(Debug)]
struct CachedResult {
    results: Vec<SearchResult>,
    timestamp: u64,
    ttl_seconds: u64,
}

/// Mathematical image of a cache entry.
pub ghost struct CacheEntryModel {
    pub results: Seq<SearchResultModel>,
    pub timestamp: u64,
    pub ttl_seconds: u64,
}

/// Query cache for performance optimization: a bounded store from raw query
/// text to a previously computed result list, expiring lazily by
/// time-to-live.
pub struct QueryCache {
    cache: Vec<(String, CachedResult)>,
    max_size: usize,
}

impl QueryCache {
    /// The entry stored under a key, as its mathematical image.
    pub closed spec fn entry_model_at(&self, key: Seq<char>) -> Option<CacheEntryModel> {
        match assoc_find(self.cache@, key) {
            Some(k) => Some(
                CacheEntryModel {
                    results: results_model(self.cache@[k].1.results@),
                    timestamp: self.cache@[k].1.timestamp,
                    ttl_seconds: self.cache@[k].1.ttl_seconds,
                },
            ),
            None => None,
        }
    }

    /// What a lookup at time `now` yields: the stored list while the entry
    /// is live, nothing from the moment its time-to-live has elapsed.
    pub open spec fn lookup_model(&self, key: Seq<char>, now: u64) -> Option<
        Seq<SearchResultModel>,
    > {
        match self.entry_model_at(key) {
            Some(e) => if (now as int) < e.timestamp + e.ttl_seconds {
                Some(e.results)
            } else {
                None
            },
            None => None,
        }
    }

    /// How many entries are stored.
    pub closed spec fn count(&self) -> nat {
        self.cache@.len()
    }

    /// Every query key occurs at most once.
    pub closed spec fn wf(&self) -> bool {
        forall|i: int, j: int|
            0 <= i < j < self.cache@.len() ==> (#[trigger] self.cache@[i].0@) != (
            #[trigger] self.cache@[j].0@)
    }

    /// The configured capacity.
    pub closed spec fn spec_max(&self) -> nat {
        self.max_size as nat
    }

    /// An empty cache with the given capacity.
    pub fn new(max_size: usize) -> (r: Self)
        ensures
            r.count() == 0,
            r.spec_max() == max_size,
            r.wf(),
            forall|key: Seq<char>| #[trigger] r.entry_model_at(key) is None,
    {
        let r = QueryCache { cache: Vec::new(), max_size };
        proof {
            assert forall|key: Seq<char>| #[trigger] r.entry_model_at(key) is None by {
                assert(r.cache@.len() == 0);
                assert(assoc_find(r.cache@, key) is None);
            }
        }
        r
    }

    /// The live entry under a query, if one exists at time `now`.
    pub fn get(&self, query: &str, now_seconds: u64) -> (r: Option<Vec<SearchResult>>)
        ensures
            match r {
                Some(v) => self.lookup_model(query@, now_seconds) == Some(results_model(v@)),
                None => self.lookup_model(query@, now_seconds) is None,
            },
    {
        let mut i: usize = 0;
        while i < self.cache.len()
            invariant
                i <= self.cache@.len(),
                forall|j: int| 0 <= j < i ==> (#[trigger] self.cache@[j].0@) != query@,
            decreases self.cache@.len() - i,
        {
            if str_eq(self.cache[i].0.as_str(), query) {
                proof {
                    lemma_assoc_find_characterization(self.cache@, query@);
                    if assoc_find(self.cache@, query@) is None {
                        assert(self.cache@[i as int].0@ != query@);
                    }
                }
                let entry = &self.cache[i].1;
                let live = if now_seconds >= entry.timestamp {
                    now_seconds - entry.timestamp < entry.ttl_seconds
                } else {
                    true
                };
                if live {
                    return Some(clone_results(&entry.results));
                } else {
                    return None;
                }
            }
            i += 1;
        }
        proof {
            lemma_assoc_find_characterization(self.cache@, query@);
            assert(assoc_find(self.cache@, query@) is None) by {
                match assoc_find(self.cache@, query@) {
                    Some(k) => {
                        assert(self.cache@[k].0@ == query@);
                    },
                    None => {},
                }
            }
            assert(self.entry_model_at(query@) is None);
            assert(self.lookup_model(query@, now_seconds) is None);
        }
        None
    }

    /// Stores a result list under a query at time `now`: replaces the
    /// query's entry if present, else evicts one entry when at capacity and
    /// appends. Any other key afterwards holds its old entry or nothing.
    pub fn insert(&mut self, query: String, results: Vec<SearchResult>, ttl_seconds: u64, now_seconds: u64)
        requires
            old(self).wf(),
        ensures
            final(self).wf(),
            final(self).entry_model_at(query@) == Some(
                CacheEntryModel {
                    results: results_model(results@),
                    timestamp: now_seconds,
                    ttl_seconds,
                },
            ),
            forall|key: Seq<char>|
                key != query@ ==> (#[trigger] final(self).entry_model_at(key) == old(self).entry_model_at(key) || final(self).entry_model_at(key) is None),
            old(self).count() < old(self).spec_max() ==> forall|key: Seq<char>|
                key != query@ ==> #[trigger] final(self).entry_model_at(key) == old(self).entry_model_at(key),
            old(self).count() <= final(self).count() <= old(self).count() + 1,
            old(self).count() <= old(self).spec_max() && old(self).spec_max() >= 1 ==> final(self).count() <= final(self).spec_max(),
            final(self).spec_max() == old(self).spec_max(),
    {
        let entry = CachedResult { results, timestamp: now_seconds, ttl_seconds };
        let mut i: usize = 0;
        while i < self.cache.len()
            invariant
                i <= self.cache@.len(),
                forall|j: int| 0 <= j < i ==> (#[trigger] self.cache@[j].0@) != query@,
                *self == *old(self),
                old(self).wf(),
                entry.timestamp == now_seconds,
                entry.ttl_seconds == ttl_seconds,
                results_model(entry.results@) == results_model(results@),
            decreases self.cache@.len() - i,
        {
            if str_eq(self.cache[i].0.as_str(), query.as_str()) {
                let ghost pre = self.cache@;
                self.cache[i] = (query, entry);
                proof {
                    assert(forall|j: int|
                        0 <= j < self.cache@.len() && j != i ==> #[trigger] self.cache@[j]
                            == pre[j]);
                    assert(forall|j: int|
                        0 <= j < self.cache@.len() ==> (#[trigger] self.cache@[j].0@)
                            == pre[j].0@);
                    assert(assoc_find(pre, query@) == Some(i as int)) by {
                        lemma_assoc_find_characterization(pre, query@);
                        if assoc_find(pre, query@) is None {
                            assert(pre[i as int].0@ != query@);
                        }
                        match assoc_find(pre, query@) {
                            Some(k) => {
                                if k != i as int {
                                    assert(pre[k].0@ == query@);
                                }
                            },
                            None => {},
                        }
                    }
                    lemma_assoc_find_same_keys(self.cache@, pre, query@);
                    assert forall|x: int, y: int|
                        0 <= x < y < self.cache@.len() implies (#[trigger] self.cache@[x].0@) != (
                    #[trigger] self.cache@[y].0@) by {
                        assert(pre[x].0@ != pre[y].0@);
                    }
                    assert forall|key: Seq<char>|
                        key != query@ implies #[trigger] self.entry_model_at(key) == old(self).entry_model_at(key) by {
                        lemma_assoc_find_same_keys(self.cache@, pre, key);
                        lemma_assoc_find_characterization(pre, key);
                        match assoc_find(pre, key) {
                            Some(k) => {
                                assert(pre[k].0@ == key);
                                assert(k != i as int);
                                assert(self.cache@[k] == pre[k]);
                            },
                            None => {},
                        }
                    }
                }
                return ;
            }
            i += 1;
        }
        let ghost pre_evict = self.cache@;
        if self.cache.len() >= self.max_size && self.cache.len() > 0 {
            self.cache.remove(0);
        }
        let ghost pre = self.cache@;
        proof {
            if pre.len() < pre_evict.len() {
                assert(pre =~= pre_evict.drop_first());
            }
            assert(forall|k: int|
                0 <= k < pre.len() ==> #[trigger] pre[k] == (if pre.len() < pre_evict.len() {
                    pre_evict[k + 1]
                } else {
                    pre_evict[k]
                }));
            assert forall|j: int| 0 <= j < pre.len() implies (#[trigger] pre[j].0@)
                != query@ by {
                if pre.len() < pre_evict.len() {
                    assert(pre[j] == pre_evict[j + 1]);
                    assert(pre_evict[j + 1].0@ != query@);
                } else {
                    assert(pre[j] == pre_evict[j]);
                    assert(pre_evict[j].0@ != query@);
                }
            }
            assert forall|x: int, y: int|
                0 <= x < y < pre.len() implies (#[trigger] pre[x].0@) != (
            #[trigger] pre[y].0@) by {
                if pre.len() < pre_evict.len() {
                    assert(pre_evict[x + 1].0@ != pre_evict[y + 1].0@);
                } else {
                    assert(pre_evict[x].0@ != pre_evict[y].0@);
                }
            }
        }
        self.cache.push((query, entry));
        proof {
            lemma_assoc_find_push(pre, (query, entry), query@);
            lemma_assoc_find_characterization(pre, query@);
            assert(self.entry_model_at(query@) == Some(
                CacheEntryModel {
                    results: results_model(results@),
                    timestamp: now_seconds,
                    ttl_seconds,
                },
            ));
            assert forall|x: int, y: int|
                0 <= x < y < self.cache@.len() implies (#[trigger] self.cache@[x].0@) != (
            #[trigger] self.cache@[y].0@) by {
                assert(self.cache@ == pre.push((query, entry)));
                if y == self.cache@.len() - 1 {
                    assert(0 <= x < pre.len());
                    assert(self.cache@[x] == pre[x]);
                    assert(self.cache@[y] == (query, entry));
                    assert(pre[x].0@ != query@);
                } else {
                    assert(self.cache@[x] == pre[x]);
                    assert(self.cache@[y] == pre[y]);
                    assert(pre[x].0@ != pre[y].0@);
                }
            }
            if old(self).count() < old(self).spec_max() {
                assert(pre_evict == pre);
                assert forall|key: Seq<char>|
                    key != query@ implies #[trigger] self.entry_model_at(key) == old(self).entry_model_at(key) by {
                    lemma_assoc_find_push(pre, (query, entry), key);
                    lemma_assoc_find_characterization(pre, key);
                    match assoc_find(pre, key) {
                        Some(k) => {
                            assert(0 <= k < pre.len());
                            assert(self.cache@[k] == pre[k]);
                        },
                        None => {},
                    }
                }
            }
            assert forall|key: Seq<char>|
                key != query@ implies (#[trigger] self.entry_model_at(key) == old(self).entry_model_at(key) || self.entry_model_at(key) is None) by {
                lemma_assoc_find_push(pre, (query, entry), key);
                lemma_assoc_find_characterization(pre, key);
                match assoc_find(pre, key) {
                    Some(k) => {
                        assert(0 <= k < pre.len());
                        assert(self.cache@[k] == pre[k]);
                        match assoc_find(old(self).cache@, key) {
                            Some(k0) => {
                                lemma_assoc_find_characterization(old(self).cache@, key);
                                if pre.len() < pre_evict.len() {
                                    assert(pre_evict[0].0@ != key) by {
                                        if pre_evict[0].0@ == key {
                                            assert(pre[k] == pre_evict[k + 1]);
                                            assert(pre_evict[k + 1].0@ == key);
                                            assert(old(self).wf());
                                        }
                                    }
                                    lemma_assoc_find_drop_shift(old(self).cache@, key, k, k0);
                                } else {
                                    assert(pre == old(self).cache@);
                                }
                            },
                            None => {
                                lemma_assoc_find_characterization(old(self).cache@, key);
                                assert(pre[k].0@ == key);
                                if pre.len() < pre_evict.len() {
                                    assert(pre[k] == pre_evict[k + 1]);
                                    assert(pre_evict[k + 1].0@ != key);
                                } else {
                                    assert(pre_evict[k].0@ != key);
                                }
                            },
                        }
                    },
                    None => {},
                }
            }
        }
    }

    /// Cache occupancy statistics.
    pub fn get_stats(&self) -> (r: CacheStats)
        ensures
            r.size == self.count(),
            r.max_size == self.spec_max(),
    {
        CacheStats { size: self.cache.len(), max_size: self.max_size }
    }
}

/// After dropping the first entry, an entry found in the shorter list was
/// the same entry one place later in the longer one.
proof fn lemma_assoc_find_drop_shift(
    s: Seq<(String, CachedResult)>,
    key: Seq<char>,
    k: int,
    k0: int,
)
    requires
        s.len() > 0,
        assoc_find(s.drop_first(), key) == Some(k),
        assoc_find(s, key) == Some(k0),
        s[0].0@ != key,
    ensures
        s.drop_first()[k] == s[k0],
{
    lemma_assoc_find_characterization(s, key);
    lemma_assoc_find_characterization(s.drop_first(), key);
    assert(forall|j: int|
        0 <= j < s.drop_first().len() ==> #[trigger] s.drop_first()[j] == s[j + 1]);
    assert(s[k + 1].0@ == key);
    assert(k0 >= 1);
    assert(s.drop_first()[k0 - 1].0@ == key);
    assert(k0 - 1 >= k);
    assert(k + 1 >= k0);
    assert(s.drop_first()[k] == s[k + 1]);
}

/// A result list stored under a key reads back unchanged at any time before
/// its time-to-live has elapsed, and reads as absent from any time at or
/// past that moment.
pub proof fn lemma_cache_ttl(
    c: QueryCache,
    key: Seq<char>,
    results: Seq<SearchResultModel>,
    stored_at: u64,
    ttl_seconds: u64,
    at: u64,
)
    requires
        c.entry_model_at(key) == Some(
            CacheEntryModel { results, timestamp: stored_at, ttl_seconds },
        ),
    ensures
        (at as int) < stored_at + ttl_seconds ==> c.lookup_model(key, at) == Some(results),
        (at as int) >= stored_at + ttl_seconds ==> c.lookup_model(key, at) is None,
{
}

/// Cache statistics.
#[derive(Debug, Clone, Copy)]
pub struct CacheStats {
    pub size: usize,
    pub max_size: usize,
}


/// Mathematical image of a [`SearchQuery`].
pub ghost struct QueryModel {
    pub text: Seq<char>,
    pub max_results: Option<usize>,
    pub court_filter: Option<Seq<Seq<char>>>,
    pub date_range: Option<(i64, i64)>,
    pub config: SearchConfig,
}

impl SearchQuery {
    /// What a query says, independent of string allocation.
    pub open spec fn model(&self) -> QueryModel {
        QueryModel {
            text: self.query@,
            max_results: self.max_results,
            court_filter: court_filter_model(self.court_filter),
            date_range: self.date_range,
            config: self.config,
        }
    }
}

/// View of an optional court filter as character sequences.
pub open spec fn court_filter_model(f: Option<Vec<String>>) -> Option<Seq<Seq<char>>> {
    match f {
        Some(v) => Some(v.deep_view()),
        None => None,
    }
}

/// Whether a court name passes an optional court filter.
pub open spec fn court_allowed(filter: Option<Seq<Seq<char>>>, court: Seq<char>) -> bool {
    match filter {
        Some(f) => f.contains(court),
        None => true,
    }
}

/// Whether a decision date passes an optional inclusive date range.
pub open spec fn date_allowed(range: Option<(i64, i64)>, d: i64) -> bool {
    match range {
        Some((lo, hi)) => lo <= d <= hi,
        None => true,
    }
}

/// Whether a result passes a query's court and date filters.
pub open spec fn passes_filters(q: QueryModel, r: SearchResult) -> bool {
    &&& court_allowed(q.court_filter, r.case_metadata.court@)
    &&& date_allowed(q.date_range, r.case_metadata.decision_date)
}

/// How many results a query allows at most: the smaller of the query's own
/// cap and the configured cap.
pub open spec fn effective_max(q: QueryModel) -> nat {
    match q.max_results {
        Some(m) => if m <= q.config.max_results {
            m as nat
        } else {
            q.config.max_results as nat
        },
        None => q.config.max_results as nat,
    }
}

/// Whether the lexical index yields this case for this query text.
pub open spec fn lexically_matched(t: TrieIndex, q: Seq<char>, id: CaseId) -> bool {
    exists|j: int|
        0 <= j < t.query_matches(q).len() && (#[trigger] t.query_matches(q)[j]).case_id == id
}

/// Whether the semantic index holds a vector for this case whose similarity
/// to the query embedding is exactly this score.
pub open spec fn semantic_evidence(
    contents: Seq<(DocRef, Seq<i64>)>,
    dim: nat,
    id: CaseId,
    score: u32,
) -> bool {
    exists|i: int|
        0 <= i < contents.len() && (#[trigger] contents[i]).0.case_id == id && score
            == similarity_of(distance_spec(embedding_spec(dim), contents[i].1))
}

/// What one fused result owes its stages: its metadata is the stored record
/// for its case, and its score and tag come from the stage that produced it.
pub open spec fn stage_result_ok(
    trie: TrieIndex,
    vcontents: Seq<(DocRef, Seq<i64>)>,
    vdim: nat,
    storage: MetadataStore,
    q: QueryModel,
    r: SearchResult,
) -> bool {
    &&& storage.record_of(r.case_metadata.id) == Some(r.case_metadata.model())
    &&& match r.match_type {
        MatchType::Exact => q.config.enable_prefix && lexically_matched(
            trie,
            q.text,
            r.case_metadata.id,
        ) && r.score == q.config.exact_match_weight,
        MatchType::Semantic => q.config.enable_semantic && r.score >= q.config.min_similarity
            && semantic_evidence(vcontents, vdim, r.case_metadata.id, r.score),
        _ => false,
    }
}

/// Scores never increase along the list.
pub open spec fn sorted_by_score_desc(s: Seq<SearchResult>) -> bool {
    forall|x: int, y: int| 0 <= x < y < s.len() ==> (#[trigger] s[x]).score >= (#[trigger] s[y]).score
}

/// No case id appears twice.
pub open spec fn distinct_ids(s: Seq<SearchResult>) -> bool {
    forall|x: int, y: int|
        0 <= x < y < s.len() ==> (#[trigger] s[x]).case_metadata.id != (
        #[trigger] s[y]).case_metadata.id
}

/// Whether some result in the list reports this case.
pub open spec fn has_case(res: Seq<SearchResult>, id: CaseId) -> bool {
    exists|k: int| 0 <= k < res.len() && (#[trigger] res[k]).case_metadata.id == id
}

/// Whether a stored record passes a query's court and date filters.
pub open spec fn passes_filters_record(q: QueryModel, rec: CaseMetadataModel) -> bool {
    &&& court_allowed(q.court_filter, rec.court)
    &&& date_allowed(q.date_range, rec.decision_date)
}

/// Everything a freshly fused result list owes the query: each entry is
/// justified by its stage, case ids are unique, a lexically matched case is
/// never reported as semantic, scores never increase, both filters hold
/// everywhere, the list respects the result cap, an untruncated list holds
/// every lexical match whose stored record passes the filters, and one can
/// drop out only when the list is full of entries scoring at least the
/// exact-match weight.
pub open spec fn fused_results_ok(
    trie: TrieIndex,
    vcontents: Seq<(DocRef, Seq<i64>)>,
    vdim: nat,
    storage: MetadataStore,
    q: QueryModel,
    res: Seq<SearchResult>,
) -> bool {
    &&& (forall|k: int|
        0 <= k < res.len() ==> stage_result_ok(trie, vcontents, vdim, storage, q, #[trigger] res[k]))
    &&& distinct_ids(res)
    &&& (forall|k: int|
        0 <= k < res.len() && q.config.enable_prefix && lexically_matched(
            trie,
            q.text,
            (#[trigger] res[k]).case_metadata.id,
        ) ==> res[k].match_type == MatchType::Exact)
    &&& sorted_by_score_desc(res)
    &&& (forall|k: int| 0 <= k < res.len() ==> passes_filters(q, #[trigger] res[k]))
    &&& res.len() <= effective_max(q)
    &&& (res.len() < effective_max(q) && q.config.enable_prefix ==> forall|d: int|
        0 <= d < trie.query_matches(q.text).len() && (match storage.record_of(
            (#[trigger] trie.query_matches(q.text)[d]).case_id,
        ) {
            Some(rec) => passes_filters_record(q, rec),
            None => false,
        }) ==> has_case(res, trie.query_matches(q.text)[d].case_id))
    &&& (q.config.enable_prefix ==> forall|d: int|
        0 <= d < trie.query_matches(q.text).len() && (match storage.record_of(
            (#[trigger] trie.query_matches(q.text)[d]).case_id,
        ) {
            Some(rec) => passes_filters_record(q, rec),
            None => false,
        }) && !has_case(res, trie.query_matches(q.text)[d].case_id) ==> (res.len()
            == effective_max(q) && (res.len() > 0 ==> res[res.len() - 1].score
            >= q.config.exact_match_weight)))
}

/// Whether a case id is among those already emitted.
fn contains_id(seen: &Vec<CaseId>, id: CaseId) -> (r: bool)
    ensures
        r == seen@.contains(id),
{
    let mut i: usize = 0;
    while i < seen.len()
        invariant
            i <= seen@.len(),
            forall|j: int| 0 <= j < i ==> seen@[j] != id,
        decreases seen@.len() - i,
    {
        if seen[i] == id {
            assert(seen@.contains(id));
            return true;
        }
        i += 1;
    }
    assert(!seen@.contains(id));
    false
}

/// Runs the court filter check.
fn court_allowed_exec(filter: &Option<Vec<String>>, court: &String) -> (r: bool)
    ensures
        r == court_allowed(court_filter_model(*filter), court@),
{
    match filter {
        None => true,
        Some(f) => {
            proof {
                assert(court_filter_model(*filter) == Some(f.deep_view()));
            }
            let mut j: usize = 0;
            while j < f.len()
                invariant
                    j <= f@.len(),
                    court_filter_model(*filter) == Some(f.deep_view()),
                    forall|k: int| 0 <= k < j ==> #[trigger] f.deep_view()[k] != court@,
                decreases f@.len() - j,
            {
                proof {
                    assert(f.deep_view()[j as int] == f@[j as int]@);
                }
                if str_eq(f[j].as_str(), court.as_str()) {
                    proof {
                        assert(f.deep_view().len() == f@.len());
                        assert(f.deep_view()[j as int] == court@);
                        assert(f.deep_view().contains(court@));
                    }
                    return true;
                }
                j += 1;
            }
            proof {
                assert(f.deep_view().len() == f@.len());
                assert(!f.deep_view().contains(court@)) by {
                    if f.deep_view().contains(court@) {
                        let w = choose|w: int|
                            0 <= w < f.deep_view().len() && f.deep_view()[w] == court@;
                        assert(f.deep_view()[w] != court@);
                    }
                }
            }
            false
        },
    }
}

/// The query the plain `search` entry point issues for a text: stock
/// parameters, no filters, the engine's default result cap.
pub open spec fn stock_query_model(text: Seq<char>, default_max: usize) -> QueryModel {
    QueryModel {
        text,
        max_results: Some(default_max),
        court_filter: None,
        date_range: None,
        config: (SearchConfig {
            max_results: 10,
            min_similarity: 500_000,
            exact_match_weight: 2_000_000,
            enable_semantic: true,
            enable_prefix: true,
        }),
    }
}

/// The message rejecting a query shorter than the configured minimum,
/// naming the bound.
pub open spec fn too_short_reason(min: usize) -> Seq<char> {
    "Query too short: minimum "@ + dec_digits(min as nat) + " characters"@
}

/// The message rejecting a query longer than the configured maximum, naming
/// the bound.
pub open spec fn too_long_reason(max: usize) -> Seq<char> {
    "Query too long: maximum "@ + dec_digits(max as nat) + " characters"@
}

/// The placeholder snippet for a match location.
pub open spec fn snippet_spec(d: DocRef) -> Seq<char> {
    "Snippet for case "@ + dec_digits(d.case_id as nat) + " paragraph "@ + dec_digits(
        d.paragraph_index as nat,
    )
}

/// Builds the placeholder snippet naming the case and paragraph.
fn generate_snippet(doc_ref: &DocRef) -> (r: String)
    ensures
        r@ == snippet_spec(*doc_ref),
{
    let mut s = String::from_str("Snippet for case ");
    let idpart = crate::text::u128_to_string(doc_ref.case_id);
    s.append(idpart.as_str());
    s.append(" paragraph ");
    let ppart = u64_to_string(doc_ref.paragraph_index as u64);
    s.append(ppart.as_str());
    proof {
        assert(s@ =~= snippet_spec(*doc_ref));
    }
    s
}

/// Filtering a list of distinct-id results keeps the ids distinct.
proof fn lemma_filter_distinct_ids(s: Seq<SearchResult>, pred: spec_fn(SearchResult) -> bool)
    requires
        distinct_ids(s),
    ensures
        distinct_ids(s.filter(pred)),
    decreases s.len(),
{
    reveal(Seq::filter);
    if s.len() > 0 {
        let rest = s.drop_last();
        assert(forall|j: int| 0 <= j < rest.len() ==> rest[j] == s[j]);
        assert(distinct_ids(rest));
        lemma_filter_distinct_ids(rest, pred);
        if pred(s.last()) {
            let f = rest.filter(pred);
            assert forall|x: int, y: int|
                0 <= x < y < f.push(s.last()).len() implies (#[trigger] f.push(
                s.last(),
            )[x]).case_metadata.id != (#[trigger] f.push(s.last())[y]).case_metadata.id by {
                if y == f.len() {
                    assert(f.push(s.last())[x] == f[x]);
                    assert(f.contains(f[x]));
                    rest.lemma_filter_contains_rev(pred, f[x]);
                    let j = choose|j: int| 0 <= j < rest.len() && rest[j] == f[x];
                    assert(s[j] == f[x]);
                    assert(s[j].case_metadata.id != s.last().case_metadata.id);
                } else {
                    assert(f.push(s.last())[x] == f[x]);
                    assert(f.push(s.last())[y] == f[y]);
                }
            }
        }
    }
}

/// A rearrangement of a list with distinct case ids has distinct case ids.
proof fn lemma_permutation_distinct_ids(a: Seq<SearchResult>, b: Seq<SearchResult>)
    requires
        a.to_multiset() == b.to_multiset(),
        distinct_ids(a),
    ensures
        distinct_ids(b),
{
    broadcast use vstd::seq_lib::group_to_multiset_ensures;

    assert(a.no_duplicates()) by {
        assert forall|i: int, j: int|
            0 <= i < a.len() && 0 <= j < a.len() && i != j implies a[i] != a[j] by {
            if i < j {
                assert(a[i].case_metadata.id != a[j].case_metadata.id);
            } else {
                assert(a[j].case_metadata.id != a[i].case_metadata.id);
            }
        }
    }
    a.lemma_multiset_has_no_duplicates();
    b.lemma_multiset_has_no_duplicates_conv();
    assert forall|x: int, y: int|
        0 <= x < y < b.len() implies (#[trigger] b[x]).case_metadata.id != (
    #[trigger] b[y]).case_metadata.id by {
        assert(b[x] != b[y]);
        assert(b.contains(b[x]));
        assert(b.contains(b[y]));
        vstd::seq_lib::to_multiset_contains(b, b[x]);
        vstd::seq_lib::to_multiset_contains(b, b[y]);
        vstd::seq_lib::to_multiset_contains(a, b[x]);
        vstd::seq_lib::to_multiset_contains(a, b[y]);
        assert(a.contains(b[x]));
        assert(a.contains(b[y]));
        let i = choose|i: int| 0 <= i < a.len() && a[i] == b[x];
        let j = choose|j: int| 0 <= j < a.len() && a[j] == b[y];
        assert(i != j);
        if i < j {
            assert(a[i].case_metadata.id != a[j].case_metadata.id);
        } else {
            assert(a[j].case_metadata.id != a[i].case_metadata.id);
        }
    }
}

/// Sorts results by score, largest first, keeping exactly the same entries.
fn sort_results_desc(v: Vec<SearchResult>) -> (r: Vec<SearchResult>)
    ensures
        r@.to_multiset() == v@.to_multiset(),
        sorted_by_score_desc(r@),
{
    let mut rem = v;
    let mut out: Vec<SearchResult> = Vec::new();
    proof {
        broadcast use vstd::seq_lib::group_to_multiset_ensures;

        assert(out@.to_multiset().add(rem@.to_multiset()) =~= v@.to_multiset());
    }
    while rem.len() > 0
        invariant
            sorted_by_score_desc(out@),
            out@.to_multiset().add(rem@.to_multiset()) == v@.to_multiset(),
        decreases rem@.len(),
    {
        let ghost pre_rem = rem@;
        let ghost pre_out = out@;
        let x = rem.pop().unwrap();
        let mut p: usize = 0;
        while p < out.len() && out[p].score >= x.score
            invariant
                p <= out@.len(),
                forall|j: int| 0 <= j < p ==> (#[trigger] out@[j]).score >= x.score,
                out@ == pre_out,
            decreases out@.len() - p,
        {
            p += 1;
        }
        let ghost pp = p as int;
        out.insert(p, x);
        proof {
            broadcast use vstd::seq_lib::group_to_multiset_ensures;

            assert(pre_rem =~= rem@.push(x));
            assert(pre_rem.to_multiset() == rem@.to_multiset().insert(x));
            assert(out@ == pre_out.insert(pp, x));
            assert(out@.to_multiset() == pre_out.to_multiset().insert(x));
            assert(out@.to_multiset().add(rem@.to_multiset()) =~= v@.to_multiset());
            assert forall|a: int, b: int|
                0 <= a < b < out@.len() implies (#[trigger] out@[a]).score >= (
            #[trigger] out@[b]).score by {
                assert(forall|k: int| 0 <= k < pp ==> out@[k] == pre_out[k]);
                assert(out@[pp] == x);
                assert(forall|k: int| pp < k < out@.len() ==> out@[k] == pre_out[k - 1]);
                if b < pp {
                } else if a < pp && b == pp {
                    assert(pre_out[a].score >= x.score);
                } else if a < pp && b > pp {
                    assert(pre_out[a].score >= pre_out[b - 1].score);
                } else if a == pp {
                    assert(out@[b] == pre_out[b - 1]);
                    assert(pp <= b - 1 < pre_out.len());
                    assert(pp == pre_out.len() || pre_out[pp].score < x.score);
                    if pp < pre_out.len() {
                        assert(pre_out[pp].score >= pre_out[b - 1].score || pp == b - 1);
                    }
                } else {
                    assert(pre_out[a - 1].score >= pre_out[b - 1].score);
                }
            }
        }
    }
    proof {
        broadcast use vstd::seq_lib::group_to_multiset_ensures;

        assert(rem@.to_multiset().len() == 0);
        assert(out@.to_multiset().add(rem@.to_multiset()) =~= out@.to_multiset());
    }
    out
}

/// Keeps the first `n` results.
fn truncate_results(v: Vec<SearchResult>, n: usize) -> (r: Vec<SearchResult>)
    ensures
        r@ == v@.take(if n <= v@.len() {
            n as int
        } else {
            v@.len() as int
        }),
{
    let mut out = v;
    let ghost pre = out@;
    out.truncate(n);
    proof {
        if n <= pre.len() {
            assert(out@ =~= pre.take(n as int));
        } else {
            assert(out@ =~= pre.take(pre.len() as int));
        }
    }
    out
}

/// The predicate a query's filters impose on one result.
pub open spec fn filter_pred(q: QueryModel) -> spec_fn(SearchResult) -> bool {
    |x: SearchResult| passes_filters(q, x)
}

/// Search engine statistics.
#[derive(Debug, Clone)]
pub struct SearchEngineStats {
    pub total_cases_indexed: usize,
    pub vector_index_stats: crate::vector::VectorIndexStats,
    pub cache_stats: CacheStats,
}

/// Main search engine: the three indices, the metadata store, and the query
/// cache, behind the `search` operations.
pub struct SearchEngine {
    config: Config,
    trie_index: TrieIndex,
    vector_index: VectorIndex,
    storage: MetadataStore,
    query_cache: QueryCache,
}

impl SearchEngine {
    /// The lexical index.
    pub closed spec fn spec_trie(&self) -> TrieIndex {
        self.trie_index
    }

    /// What the semantic index holds.
    pub closed spec fn spec_vector_contents(&self) -> Seq<(DocRef, Seq<i64>)> {
        self.vector_index.contents()
    }

    /// The semantic index's dimension.
    pub closed spec fn spec_vector_dim(&self) -> nat {
        self.vector_index.spec_dimension()
    }

    /// The metadata store.
    pub closed spec fn spec_storage(&self) -> MetadataStore {
        self.storage
    }

    /// The query cache.
    pub closed spec fn spec_cache(&self) -> QueryCache {
        self.query_cache
    }

    /// The engine's search behavior settings.
    pub closed spec fn spec_search_config(&self) -> crate::config::SearchEngineConfig {
        self.config.search
    }

    /// Structural health of every component.
    pub closed spec fn wf(&self) -> bool {
        &&& self.trie_index.wf()
        &&& self.vector_index.wf()
        &&& self.storage.wf()
        &&& self.query_cache.wf()
    }

    /// Create new search engine: empty indices, an empty store, and an
    /// empty cache sized from the configuration.
    pub fn new(config: Config) -> (r: Result<Self, SearchError>)
        ensures
            r is Ok <==> (1 <= config.vector.dimension <= crate::MAX_DIMENSION
                && config.vector.hnsw.m >= 1),
            match r {
                Ok(e) => {
                    &&& e.wf()
                    &&& (forall|q: Seq<char>| #[trigger] e.spec_trie().query_matches(q) == Seq::<
                        DocRef,
                    >::empty())
                    &&& e.spec_vector_contents() == Seq::<(DocRef, Seq<i64>)>::empty()
                    &&& e.spec_storage().records() == Seq::<CaseMetadata>::empty()
                    &&& e.spec_cache().count() == 0
                    &&& (forall|key: Seq<char>| #[trigger] e.spec_cache().entry_model_at(key)
                        is None)
                    &&& e.spec_search_config() == config.search
                },
                Err(e) => e matches SearchError::Config { .. },
            },
    {
        let trie_index = match TrieIndex::new(config.trie.clone()) {
            Ok(t) => t,
            Err(_) => {
                return Err(SearchError::Config {
                    message: String::from_str("trie index unavailable"),
                });
            },
        };
        let vector_index = VectorIndex::new(config.vector.clone())?;
        let query_cache = QueryCache::new(config.search.query_cache_size);
        let storage = MetadataStore::new();
        Ok(SearchEngine { config, trie_index, vector_index, storage, query_cache })
    }

    /// Insert a case name into the lexical index.
    pub fn insert_case_name(&mut self, case_name: &str, case_id: CaseId) -> (r: Result<
        (),
        SearchError,
    >)
        requires
            old(self).wf(),
        ensures
            r is Ok,
            final(self).wf(),
            final(self).spec_trie().name_docs_at(crate::text::folded_split(case_name@)) == old(self).spec_trie().name_docs_at(crate::text::folded_split(case_name@)).push(
                (DocRef { case_id, paragraph_index: 0, char_offset: None }),
            ),
            forall|p: Seq<Seq<char>>|
                p != crate::text::folded_split(case_name@) ==> #[trigger] final(self).spec_trie().name_docs_at(p) == old(self).spec_trie().name_docs_at(p),
            forall|p: Seq<Seq<char>>| #[trigger] final(self).spec_trie().citation_docs_at(p)
                == old(self).spec_trie().citation_docs_at(p),
            forall|p: Seq<Seq<char>>| #[trigger] final(self).spec_trie().content_docs_at(p) == old(self).spec_trie().content_docs_at(p),
            final(self).spec_vector_contents() == old(self).spec_vector_contents(),
            final(self).spec_storage() == old(self).spec_storage(),
            final(self).spec_cache() == old(self).spec_cache(),
            final(self).spec_search_config() == old(self).spec_search_config(),
    {
        self.trie_index.insert_case_name(case_name, case_id)
    }

    /// Insert content tokens into the lexical index.
    pub fn insert_content(&mut self, tokens: &Vec<String>, doc_ref: DocRef) -> (r: Result<
        (),
        SearchError,
    >)
        requires
            old(self).wf(),
        ensures
            r is Ok,
            final(self).wf(),
            final(self).spec_trie().content_docs_at(
                tokens.deep_view().map_values(|t: Seq<char>| crate::text::lower_of(t)),
            ) == old(self).spec_trie().content_docs_at(
                tokens.deep_view().map_values(|t: Seq<char>| crate::text::lower_of(t)),
            ).push(doc_ref),
            forall|p: Seq<Seq<char>>|
                p != tokens.deep_view().map_values(|t: Seq<char>| crate::text::lower_of(t))
                    ==> #[trigger] final(self).spec_trie().content_docs_at(p) == old(self).spec_trie().content_docs_at(p),
            forall|p: Seq<Seq<char>>| #[trigger] final(self).spec_trie().name_docs_at(p) == old(self).spec_trie().name_docs_at(p),
            forall|p: Seq<Seq<char>>| #[trigger] final(self).spec_trie().citation_docs_at(p)
                == old(self).spec_trie().citation_docs_at(p),
            final(self).spec_vector_contents() == old(self).spec_vector_contents(),
            final(self).spec_storage() == old(self).spec_storage(),
            final(self).spec_cache() == old(self).spec_cache(),
            final(self).spec_search_config() == old(self).spec_search_config(),
    {
        self.trie_index.insert_content(tokens, doc_ref)
    }

    /// Insert a citation into the lexical index, preserving its casing.
    pub fn insert_citation(&mut self, citation: &str, doc_ref: DocRef) -> (r: Result<
        (),
        SearchError,
    >)
        requires
            old(self).wf(),
        ensures
            r is Ok,
            final(self).wf(),
            final(self).spec_trie().citation_docs_at(crate::text::split_ws(citation@)) == old(self).spec_trie().citation_docs_at(crate::text::split_ws(citation@)).push(doc_ref),
            forall|p: Seq<Seq<char>>|
                p != crate::text::split_ws(citation@) ==> #[trigger] final(self).spec_trie().citation_docs_at(p) == old(self).spec_trie().citation_docs_at(p),
            forall|p: Seq<Seq<char>>| #[trigger] final(self).spec_trie().name_docs_at(p) == old(self).spec_trie().name_docs_at(p),
            forall|p: Seq<Seq<char>>| #[trigger] final(self).spec_trie().content_docs_at(p) == old(self).spec_trie().content_docs_at(p),
            final(self).spec_vector_contents() == old(self).spec_vector_contents(),
            final(self).spec_storage() == old(self).spec_storage(),
            final(self).spec_cache() == old(self).spec_cache(),
            final(self).spec_search_config() == old(self).spec_search_config(),
    {
        self.trie_index.insert_citation(citation, doc_ref)
    }

    /// Embed a document's text and add the vector to the semantic index.
    pub fn add_document(&mut self, doc_ref: DocRef, text: &str) -> (r: Result<(), SearchError>)
        requires
            old(self).wf(),
        ensures
            r is Ok,
            final(self).wf(),
            final(self).spec_vector_contents() == old(self).spec_vector_contents().push(
                (doc_ref, embedding_spec(old(self).spec_vector_dim())),
            ),
            final(self).spec_vector_dim() == old(self).spec_vector_dim(),
            final(self).spec_trie() == old(self).spec_trie(),
            final(self).spec_storage() == old(self).spec_storage(),
            final(self).spec_cache() == old(self).spec_cache(),
            final(self).spec_search_config() == old(self).spec_search_config(),
    {
        self.vector_index.add_document(doc_ref, text)
    }

    /// Store a case metadata record for result resolution.
    pub fn store_case_metadata(&mut self, metadata: CaseMetadata) -> (r: Result<(), SearchError>)
        requires
            old(self).wf(),
        ensures
            r is Ok,
            final(self).wf(),
            final(self).spec_storage().record_of(metadata.id) == Some(metadata.model()),
            forall|other: CaseId|
                other != metadata.id ==> #[trigger] final(self).spec_storage().record_of(other)
                    == old(self).spec_storage().record_of(other),
            final(self).spec_trie() == old(self).spec_trie(),
            final(self).spec_vector_contents() == old(self).spec_vector_contents(),
            final(self).spec_vector_dim() == old(self).spec_vector_dim(),
            final(self).spec_cache() == old(self).spec_cache(),
            final(self).spec_search_config() == old(self).spec_search_config(),
    {
        self.storage.store_case_metadata(metadata)
    }

    /// Validate a search query's length against the configured window.
    fn validate_query(&self, query: &SearchQuery) -> (r: Result<(), SearchError>)
        ensures
            r is Ok <==> (self.spec_search_config().min_query_length <= query.query@.len()
                && query.query@.len() <= self.spec_search_config().max_query_length),
            query.query@.len() < self.spec_search_config().min_query_length ==> (r matches Err(
                SearchError::InvalidSearchQuery { query: q, reason },
            ) && q@ == query.query@ && reason@ == too_short_reason(
                self.spec_search_config().min_query_length,
            )),
            query.query@.len() >= self.spec_search_config().min_query_length && query.query@.len()
                > self.spec_search_config().max_query_length ==> (r matches Err(
                SearchError::InvalidSearchQuery { query: q, reason },
            ) && q@ == query.query@ && reason@ == too_long_reason(
                self.spec_search_config().max_query_length,
            )),
    {
        let n = query.query.as_str().unicode_len();
        if n < self.config.search.min_query_length {
            let mut reason = String::from_str("Query too short: minimum ");
            let digits = u64_to_string(self.config.search.min_query_length as u64);
            reason.append(digits.as_str());
            reason.append(" characters");
            proof {
                assert(reason@ =~= too_short_reason(self.spec_search_config().min_query_length));
            }
            return Err(SearchError::InvalidSearchQuery { query: query.query.clone(), reason });
        }
        if n > self.config.search.max_query_length {
            let mut reason = String::from_str("Query too long: maximum ");
            let digits = u64_to_string(self.config.search.max_query_length as u64);
            reason.append(digits.as_str());
            reason.append(" characters");
            proof {
                assert(reason@ =~= too_long_reason(self.spec_search_config().max_query_length));
            }
            return Err(SearchError::InvalidSearchQuery { query: query.query.clone(), reason });
        }
        Ok(())
    }

    /// Apply the court and date filters, keeping order.
    fn apply_filters(&self, results: Vec<SearchResult>, query: &SearchQuery) -> (r: Result<
        Vec<SearchResult>,
        SearchError,
    >)
        ensures
            match r {
                Ok(out) => out@ == results@.filter(filter_pred(query.model())),
                Err(_) => false,
            },
    {
        let ghost pred = filter_pred(query.model());
        let ghost orig = results@;
        let mut rem = results;
        let mut out: Vec<SearchResult> = Vec::new();
        let mut i: usize = 0;
        let n0 = rem.len();
        proof {
            reveal(Seq::filter);
            assert(orig.take(0).filter(pred) =~= Seq::<SearchResult>::empty());
        }
        while rem.len() > 0
            invariant
                orig.len() == n0,
                i + rem@.len() == orig.len(),
                rem@ == orig.skip(i as int),
                out@ == orig.take(i as int).filter(filter_pred(query.model())),
            decreases rem@.len(),
        {
            let ghost pre_take = orig.take(i as int);
            let x = rem.remove(0);
            proof {
                assert(x == orig[i as int]);
                assert(rem@ =~= orig.skip(i + 1 as int));
                assert(orig.take(i + 1 as int) =~= pre_take.push(x));
                pre_take.lemma_filter_push(x, filter_pred(query.model()));
            }
            let keep_court = court_allowed_exec(&query.court_filter, &x.case_metadata.court);
            let keep_date = match query.date_range {
                Some((lo, hi)) => lo <= x.case_metadata.decision_date && x.case_metadata.decision_date
                    <= hi,
                None => true,
            };
            proof {
                assert((keep_court && keep_date) == passes_filters(query.model(), x));
            }
            if keep_court && keep_date {
                out.push(x);
            }
            i += 1;
        }
        proof {
            assert(orig.take(orig.len() as int) =~= orig);
        }
        Ok(out)
    }

    /// The fusion pipeline behind a valid, uncached query: the lexical
    /// stage, then the semantic stage for cases not already found, then
    /// filtering, ordering by score, and the result cap.
    fn execute_hybrid_search(&mut self, query: &SearchQuery) -> (r: Result<
        Vec<SearchResult>,
        SearchError,
    >)
        requires
            old(self).wf(),
        ensures
            final(self).wf(),
            final(self).spec_trie() == old(self).spec_trie(),
            final(self).spec_vector_contents() == old(self).spec_vector_contents(),
            final(self).spec_vector_dim() == old(self).spec_vector_dim(),
            final(self).spec_storage() == old(self).spec_storage(),
            final(self).spec_cache() == old(self).spec_cache(),
            final(self).spec_search_config() == old(self).spec_search_config(),
            match r {
                Ok(res) => fused_results_ok(
                    old(self).spec_trie(),
                    old(self).spec_vector_contents(),
                    old(self).spec_vector_dim(),
                    old(self).spec_storage(),
                    query.model(),
                    res@,
                ),
                Err(_) => false,
            },
    {
        let ghost trie0 = self.spec_trie();
        let ghost vc0 = self.spec_vector_contents();
        let ghost dim0 = self.spec_vector_dim();
        let ghost st0 = self.spec_storage();
        let ghost qm = query.model();

        let mut all_results: Vec<SearchResult> = Vec::new();
        let mut seen_cases: Vec<CaseId> = Vec::new();

        // Lexical stage.
        let exact: Vec<DocRef>;
        if query.config.enable_prefix {
            let tr = match self.trie_index.search(query.query.as_str()) {
                Ok(t) => t,
                Err(e) => {
                    proof {
                        assert(false);
                    }
                    return Err(e);
                },
            };
            exact = tr.exact_matches;
        } else {
            exact = Vec::new();
        }
        let mut i: usize = 0;
        while i < exact.len()
            invariant
                self.wf(),
                *self == *old(self),
                old(self).wf(),
                qm == query.model(),
                trie0 == old(self).spec_trie(),
                vc0 == old(self).spec_vector_contents(),
                dim0 == old(self).spec_vector_dim(),
                st0 == old(self).spec_storage(),
                qm.config.enable_prefix ==> exact@ == trie0.query_matches(qm.text),
                !qm.config.enable_prefix ==> exact@.len() == 0,
                i <= exact@.len(),
                seen_cases@.len() == all_results@.len(),
                forall|k: int|
                    0 <= k < all_results@.len() ==> (#[trigger] all_results@[k]).case_metadata.id
                        == seen_cases@[k],
                forall|x: int, y: int|
                    0 <= x < y < seen_cases@.len() ==> (#[trigger] seen_cases@[x]) != (
                    #[trigger] seen_cases@[y]),
                forall|k: int|
                    0 <= k < all_results@.len() ==> stage_result_ok(
                        trie0,
                        vc0,
                        dim0,
                        st0,
                        qm,
                        #[trigger] all_results@[k],
                    ),
                forall|k: int|
                    0 <= k < all_results@.len() ==> (#[trigger] all_results@[k]).match_type
                        == MatchType::Exact,
                forall|j: int|
                    0 <= j < i && st0.record_of((#[trigger] exact@[j]).case_id) is Some
                        ==> seen_cases@.contains(exact@[j].case_id),
            decreases exact@.len() - i,
        {
            let dref = exact[i];
            let ghost pre_seen = seen_cases@;
            match self.storage.get_case_metadata(dref.case_id) {
                Some(case_metadata) => {
                    if !contains_id(&seen_cases, dref.case_id) {
                        seen_cases.push(dref.case_id);
                        let snippet = generate_snippet(&dref);
                        let sr = SearchResult {
                            case_metadata,
                            score: query.config.exact_match_weight,
                            match_type: MatchType::Exact,
                            snippet,
                            highlights: Vec::new(),
                        };
                        proof {
                            assert(trie0.query_matches(qm.text)[i as int].case_id
                                == dref.case_id);
                            assert(lexically_matched(trie0, qm.text, sr.case_metadata.id));
                            assert(stage_result_ok(trie0, vc0, dim0, st0, qm, sr));
                        }
                        all_results.push(sr);
                        proof {
                            assert(seen_cases@.contains(dref.case_id)) by {
                                assert(seen_cases@[seen_cases@.len() - 1] == dref.case_id);
                            }
                            assert(forall|z: CaseId|
                                pre_seen.contains(z) ==> #[trigger] seen_cases@.contains(z)) by {
                                assert forall|z: CaseId|
                                    pre_seen.contains(z) implies #[trigger] seen_cases@.contains(
                                    z,
                                ) by {
                                    let w = choose|w: int|
                                        0 <= w < pre_seen.len() && pre_seen[w] == z;
                                    assert(seen_cases@[w] == z);
                                }
                            }
                        }
                    } else {
                        proof {
                            assert(seen_cases@.contains(dref.case_id));
                        }
                    }
                },
                None => {},
            }
            i += 1;
        }
        let ghost seen_lex = seen_cases@;
        let ghost results_lex = all_results@;
        proof {
            assert(forall|j: int|
                0 <= j < exact@.len() && st0.record_of((#[trigger] exact@[j]).case_id) is Some
                    ==> seen_lex.contains(exact@[j].case_id));
            assert(seen_lex.len() == results_lex.len());
            assert(forall|k: int|
                0 <= k < results_lex.len() ==> (#[trigger] results_lex[k]).case_metadata.id
                    == seen_lex[k]);
        }

        // Semantic stage, skipping cases the lexical stage already found.
        if query.config.enable_semantic && all_results.len() < query.config.max_results {
            let vres = match self.vector_index.search(query.query.as_str(), SEMANTIC_FETCH_WIDTH) {
                Ok(v) => v,
                Err(e) => {
                    proof {
                        assert(false);
                    }
                    return Err(e);
                },
            };
            let mut j: usize = 0;
            while j < vres.len()
                invariant
                    self.wf(),
                    old(self).wf(),
                    qm == query.model(),
                    self.spec_trie() == trie0,
                    self.spec_vector_contents() == vc0,
                    self.spec_vector_dim() == dim0,
                    self.spec_storage() == st0,
                    self.spec_cache() == old(self).spec_cache(),
                    self.spec_search_config() == old(self).spec_search_config(),
                    trie0 == old(self).spec_trie(),
                    vc0 == old(self).spec_vector_contents(),
                    dim0 == old(self).spec_vector_dim(),
                    st0 == old(self).spec_storage(),
                    qm.config.enable_prefix ==> exact@ == trie0.query_matches(qm.text),
                    !qm.config.enable_prefix ==> exact@.len() == 0,
                    forall|jj: int|
                        0 <= jj < exact@.len() && st0.record_of(
                            (#[trigger] exact@[jj]).case_id,
                        ) is Some ==> seen_lex.contains(exact@[jj].case_id),
                    j <= vres@.len(),
                    forall|k: int|
                        0 <= k < vres@.len() ==> crate::vector::semantic_match(
                            vc0,
                            dim0,
                            #[trigger] vres@[k],
                        ),
                    seen_cases@.len() == all_results@.len(),
                    forall|k: int|
                        0 <= k < all_results@.len() ==> (
                        #[trigger] all_results@[k]).case_metadata.id == seen_cases@[k],
                    forall|x: int, y: int|
                        0 <= x < y < seen_cases@.len() ==> (#[trigger] seen_cases@[x]) != (
                        #[trigger] seen_cases@[y]),
                    forall|k: int|
                        0 <= k < all_results@.len() ==> stage_result_ok(
                            trie0,
                            vc0,
                            dim0,
                            st0,
                            qm,
                            #[trigger] all_results@[k],
                        ),
                    seen_lex.len() <= seen_cases@.len(),
                    forall|k: int| 0 <= k < seen_lex.len() ==> seen_cases@[k] == seen_lex[k],
                    results_lex.len() <= all_results@.len(),
                    forall|k: int|
                        0 <= k < results_lex.len() ==> all_results@[k] == results_lex[k],
                    forall|k: int|
                        0 <= k < results_lex.len() ==> (#[trigger] results_lex[k]).match_type
                            == MatchType::Exact,
                    forall|k: int|
                        results_lex.len() <= k < all_results@.len() ==> (
                        #[trigger] all_results@[k]).match_type == MatchType::Semantic
                            && !seen_lex.contains(all_results@[k].case_metadata.id),
                    qm.config.enable_semantic,
                decreases vres@.len() - j,
            {
                let score = vres[j].similarity_score;
                let vid = vres[j].doc_ref.case_id;
                if score >= query.config.min_similarity {
                    match self.storage.get_case_metadata(vid) {
                        Some(case_metadata) => {
                            if !contains_id(&seen_cases, vid) {
                                proof {
                                    assert(!seen_lex.contains(vid)) by {
                                        if seen_lex.contains(vid) {
                                            let w = choose|w: int|
                                                0 <= w < seen_lex.len() && seen_lex[w] == vid;
                                            assert(seen_cases@[w] == vid);
                                            assert(seen_cases@.contains(vid));
                                        }
                                    }
                                }
                                let ghost pre_seen = seen_cases@;
                                seen_cases.push(vid);
                                let snippet = generate_snippet(&vres[j].doc_ref);
                                let sr = SearchResult {
                                    case_metadata,
                                    score,
                                    match_type: MatchType::Semantic,
                                    snippet,
                                    highlights: Vec::new(),
                                };
                                proof {
                                    assert(crate::vector::semantic_match(
                                        vc0,
                                        dim0,
                                        vres@[j as int],
                                    ));
                                    let wi = choose|wi: int|
                                        0 <= wi < vc0.len() && vres@[j as int].doc_ref == (
                                        #[trigger] vc0[wi]).0 && vres@[j as int].similarity_score
                                            == similarity_of(
                                            distance_spec(embedding_spec(dim0), vc0[wi].1),
                                        );
                                    assert(vc0[wi].0.case_id == vid);
                                    assert(semantic_evidence(vc0, dim0, vid, score));
                                    assert(stage_result_ok(trie0, vc0, dim0, st0, qm, sr));
                                }
                                all_results.push(sr);
                            }
                        },
                        None => {},
                    }
                }
                j += 1;
            }
        }

        // Exact matches outrank any semantic repeat of the same case.
        proof {
            assert forall|k: int|
                0 <= k < all_results@.len() && qm.config.enable_prefix && lexically_matched(
                    trie0,
                    qm.text,
                    (#[trigger] all_results@[k]).case_metadata.id,
                ) implies all_results@[k].match_type == MatchType::Exact by {
                if k >= results_lex.len() {
                    let id = all_results@[k].case_metadata.id;
                    let jj = choose|jj: int|
                        0 <= jj < trie0.query_matches(qm.text).len() && (
                        #[trigger] trie0.query_matches(qm.text)[jj]).case_id == id;
                    assert(exact@[jj].case_id == id);
                    assert(stage_result_ok(trie0, vc0, dim0, st0, qm, all_results@[k]));
                    assert(st0.record_of(id) is Some);
                    assert(seen_lex.contains(exact@[jj].case_id));
                } else {
                    assert(all_results@[k] == results_lex[k]);
                }
            }
        }
        let ghost fused = all_results@;

        // Filter, order by score, and cap.
        let filtered = match self.apply_filters(all_results, query) {
            Ok(f) => f,
            Err(e) => {
                proof {
                    assert(false);
                }
                return Err(e);
            },
        };
        let sorted = sort_results_desc(filtered);
        let emax = match query.max_results {
            Some(m) => if m <= query.config.max_results {
                m
            } else {
                query.config.max_results
            },
            None => query.config.max_results,
        };
        let capped = truncate_results(sorted, emax);
        proof {
            let pred = filter_pred(qm);
            let fseq = fused.filter(pred);
            assert(capped@.len() <= emax);
            assert(emax as nat == effective_max(qm));
            // Every filtered entry keeps its stage facts and passes the
            // filters.
            assert forall|k: int|
                0 <= k < fseq.len() implies stage_result_ok(
                trie0,
                vc0,
                dim0,
                st0,
                qm,
                #[trigger] fseq[k],
            ) && passes_filters(qm, fseq[k]) && (qm.config.enable_prefix && lexically_matched(
                trie0,
                qm.text,
                fseq[k].case_metadata.id,
            ) ==> fseq[k].match_type == MatchType::Exact) by {
                fused.lemma_filter_pred(pred, k);
                assert(fseq.contains(fseq[k]));
                fused.lemma_filter_contains_rev(pred, fseq[k]);
                let w = choose|w: int| 0 <= w < fused.len() && fused[w] == fseq[k];
                assert(stage_result_ok(trie0, vc0, dim0, st0, qm, fused[w]));
            }
            lemma_filter_distinct_ids(fused, pred);
            // Reordering keeps every per-entry fact and the id uniqueness.
            lemma_permutation_distinct_ids(fseq, sorted@);
            broadcast use vstd::seq_lib::group_to_multiset_ensures;

            assert forall|k: int|
                0 <= k < sorted@.len() implies stage_result_ok(
                trie0,
                vc0,
                dim0,
                st0,
                qm,
                #[trigger] sorted@[k],
            ) && passes_filters(qm, sorted@[k]) && (qm.config.enable_prefix && lexically_matched(
                trie0,
                qm.text,
                sorted@[k].case_metadata.id,
            ) ==> sorted@[k].match_type == MatchType::Exact) by {
                assert(sorted@.contains(sorted@[k]));
                assert(sorted@.to_multiset().count(sorted@[k]) > 0);
                assert(fseq.to_multiset().count(sorted@[k]) > 0);
                assert(fseq.contains(sorted@[k]));
                let w = choose|w: int| 0 <= w < fseq.len() && fseq[w] == sorted@[k];
                assert(stage_result_ok(trie0, vc0, dim0, st0, qm, fseq[w]));
            }
            // A prefix keeps everything.
            assert(forall|k: int| 0 <= k < capped@.len() ==> #[trigger] capped@[k] == sorted@[k]);
            // A dropped lexical match means the list is full of entries
            // scoring at least the exact-match weight.
            if qm.config.enable_prefix {
                assert forall|d: int|
                    0 <= d < trie0.query_matches(qm.text).len() && (match st0.record_of(
                        (#[trigger] trie0.query_matches(qm.text)[d]).case_id,
                    ) {
                        Some(rec) => passes_filters_record(qm, rec),
                        None => false,
                    }) && !has_case(capped@, trie0.query_matches(qm.text)[d].case_id) implies (
                capped@.len() == emax && (capped@.len() > 0 ==> capped@[capped@.len() - 1].score
                    >= qm.config.exact_match_weight)) by {
                    let id = trie0.query_matches(qm.text)[d].case_id;
                    assert(exact@[d].case_id == id);
                    assert(st0.record_of(id) is Some);
                    assert(seen_lex.contains(id));
                    let w = choose|w: int| 0 <= w < seen_lex.len() && seen_lex[w] == id;
                    let entry = fused[w];
                    assert(entry == results_lex[w]);
                    assert(entry.case_metadata.id == id);
                    assert(entry.match_type == MatchType::Exact);
                    assert(stage_result_ok(trie0, vc0, dim0, st0, qm, entry));
                    assert(entry.score == qm.config.exact_match_weight);
                    let rec = st0.record_of(id).unwrap();
                    assert(entry.case_metadata.model() == rec);
                    assert(passes_filters(qm, entry)) by {
                        assert(entry.case_metadata.court@ == rec.court);
                        assert(entry.case_metadata.decision_date == rec.decision_date);
                    }
                    assert(pred(entry));
                    fused.lemma_filter_contains(pred, w);
                    assert(fseq.contains(entry));
                    vstd::seq_lib::to_multiset_contains(fseq, entry);
                    vstd::seq_lib::to_multiset_contains(sorted@, entry);
                    assert(sorted@.contains(entry));
                    let x = choose|x: int| 0 <= x < sorted@.len() && sorted@[x] == entry;
                    if x < capped@.len() {
                        assert(capped@[x].case_metadata.id == id);
                        assert(has_case(capped@, id));
                    } else {
                        assert(sorted@.len() > capped@.len());
                        assert(capped@.len() == emax);
                        if capped@.len() > 0 {
                            let last = capped@.len() - 1;
                            assert(capped@[last] == sorted@[last]);
                            assert(sorted@[last].score >= sorted@[x].score);
                        }
                    }
                }
            }
            // An untruncated list still holds every lexical match whose
            // stored record passes the filters.
            if capped@.len() < emax && qm.config.enable_prefix {
                assert(sorted@.len() < emax) by {
                    if sorted@.len() >= emax {
                        assert(capped@.len() == emax);
                    }
                }
                assert(capped@ =~= sorted@);
                assert forall|d: int|
                    0 <= d < trie0.query_matches(qm.text).len() && (match st0.record_of(
                        (#[trigger] trie0.query_matches(qm.text)[d]).case_id,
                    ) {
                        Some(rec) => passes_filters_record(qm, rec),
                        None => false,
                    }) implies has_case(capped@, trie0.query_matches(qm.text)[d].case_id) by {
                    let id = trie0.query_matches(qm.text)[d].case_id;
                    assert(exact@[d].case_id == id);
                    assert(st0.record_of(id) is Some);
                    assert(seen_lex.contains(id));
                    let w = choose|w: int| 0 <= w < seen_lex.len() && seen_lex[w] == id;
                    let entry = fused[w];
                    assert(entry == results_lex[w]);
                    assert(entry.case_metadata.id == id);
                    assert(stage_result_ok(trie0, vc0, dim0, st0, qm, entry));
                    let rec = st0.record_of(id).unwrap();
                    assert(entry.case_metadata.model() == rec);
                    assert(passes_filters(qm, entry)) by {
                        assert(entry.case_metadata.court@ == rec.court);
                        assert(entry.case_metadata.decision_date == rec.decision_date);
                    }
                    assert(pred(entry));
                    fused.lemma_filter_contains(pred, w);
                    assert(fseq.contains(entry));
                    vstd::seq_lib::to_multiset_contains(fseq, entry);
                    vstd::seq_lib::to_multiset_contains(sorted@, entry);
                    assert(sorted@.contains(entry));
                    let x = choose|x: int| 0 <= x < sorted@.len() && sorted@[x] == entry;
                    assert(capped@[x].case_metadata.id == id);
                    assert(has_case(capped@, id));
                }
            }
            assert(fused_results_ok(trie0, vc0, dim0, st0, qm, capped@));
        }
        Ok(capped)
    }

    /// Perform a search with detailed parameters at an explicit wall-clock
    /// time: validation first, then the cache, then the fusion pipeline,
    /// then the cache write-back.
    pub fn search_with_params_at(&mut self, query: SearchQuery, now_seconds: u64) -> (r: Result<
        Vec<SearchResult>,
        SearchError,
    >)
        requires
            old(self).wf(),
        ensures
            final(self).wf(),
            final(self).spec_trie() == old(self).spec_trie(),
            final(self).spec_vector_contents() == old(self).spec_vector_contents(),
            final(self).spec_vector_dim() == old(self).spec_vector_dim(),
            final(self).spec_storage() == old(self).spec_storage(),
            final(self).spec_search_config() == old(self).spec_search_config(),
            r is Ok <==> (old(self).spec_search_config().min_query_length <= query.query@.len()
                && query.query@.len() <= old(self).spec_search_config().max_query_length),
            match r {
                Ok(res) => {
                    &&& ((old(self).spec_search_config().enable_query_cache && old(self).spec_cache().lookup_model(query.query@, now_seconds) is Some) ==> (*final(self) == *old(self) && Some(results_model(res@)) == old(self).spec_cache().lookup_model(query.query@, now_seconds)))
                    &&& ((!old(self).spec_search_config().enable_query_cache || old(self).spec_cache().lookup_model(query.query@, now_seconds) is None) ==> {
                        &&& fused_results_ok(
                            old(self).spec_trie(),
                            old(self).spec_vector_contents(),
                            old(self).spec_vector_dim(),
                            old(self).spec_storage(),
                            query.model(),
                            res@,
                        )
                        &&& (old(self).spec_search_config().enable_query_cache ==> final(self).spec_cache().entry_model_at(query.query@) == Some(
                            CacheEntryModel {
                                results: results_model(res@),
                                timestamp: now_seconds,
                                ttl_seconds: old(self).spec_search_config().query_cache_ttl_seconds,
                            },
                        ))
                        &&& (!old(self).spec_search_config().enable_query_cache ==> final(self).spec_cache() == old(self).spec_cache())
                    })
                },
                Err(e) => {
                    &&& *final(self) == *old(self)
                    &&& (e matches SearchError::InvalidSearchQuery { query: q, reason } && q@
                        == query.query@ && (query.query@.len() < old(
                        self,
                    ).spec_search_config().min_query_length ==> reason@ == too_short_reason(
                        old(self).spec_search_config().min_query_length,
                    )) && (query.query@.len() >= old(self).spec_search_config().min_query_length
                        && query.query@.len() > old(self).spec_search_config().max_query_length
                        ==> reason@ == too_long_reason(
                        old(self).spec_search_config().max_query_length,
                    )))
                },
            },
    {
        match self.validate_query(&query) {
            Err(e) => {
                return Err(e);
            },
            Ok(()) => {},
        }
        if self.config.search.enable_query_cache {
            match self.query_cache.get(query.query.as_str(), now_seconds) {
                Some(cached) => {
                    return Ok(cached);
                },
                None => {},
            }
        }
        let results = match self.execute_hybrid_search(&query) {
            Ok(res) => res,
            Err(e) => {
                proof {
                    assert(false);
                }
                return Err(e);
            },
        };
        if self.config.search.enable_query_cache {
            let copy = clone_results(&results);
            let key = query.query.clone();
            self.query_cache.insert(
                key,
                copy,
                self.config.search.query_cache_ttl_seconds,
                now_seconds,
            );
        }
        Ok(results)
    }

    /// Perform a search with detailed parameters, at the current wall-clock
    /// time.
    pub fn search_with_params(&mut self, query: SearchQuery) -> (r: Result<
        Vec<SearchResult>,
        SearchError,
    >)
        requires
            old(self).wf(),
        ensures
            final(self).wf(),
            final(self).spec_trie() == old(self).spec_trie(),
            final(self).spec_vector_contents() == old(self).spec_vector_contents(),
            final(self).spec_vector_dim() == old(self).spec_vector_dim(),
            final(self).spec_storage() == old(self).spec_storage(),
            final(self).spec_search_config() == old(self).spec_search_config(),
            r is Ok <==> (old(self).spec_search_config().min_query_length <= query.query@.len()
                && query.query@.len() <= old(self).spec_search_config().max_query_length),
            match r {
                Ok(res) => {
                    &&& (match old(self).spec_cache().entry_model_at(query.query@) {
                        Some(en) => results_model(res@) == en.results || fused_results_ok(
                            old(self).spec_trie(),
                            old(self).spec_vector_contents(),
                            old(self).spec_vector_dim(),
                            old(self).spec_storage(),
                            query.model(),
                            res@,
                        ),
                        None => fused_results_ok(
                            old(self).spec_trie(),
                            old(self).spec_vector_contents(),
                            old(self).spec_vector_dim(),
                            old(self).spec_storage(),
                            query.model(),
                            res@,
                        ),
                    })
                    &&& (!old(self).spec_search_config().enable_query_cache ==> fused_results_ok(
                        old(self).spec_trie(),
                        old(self).spec_vector_contents(),
                        old(self).spec_vector_dim(),
                        old(self).spec_storage(),
                        query.model(),
                        res@,
                    ))
                },
                Err(e) => {
                    &&& *final(self) == *old(self)
                    &&& (e matches SearchError::InvalidSearchQuery { query: q, reason } && q@
                        == query.query@ && (query.query@.len() < old(
                        self,
                    ).spec_search_config().min_query_length ==> reason@ == too_short_reason(
                        old(self).spec_search_config().min_query_length,
                    )) && (query.query@.len() >= old(self).spec_search_config().min_query_length
                        && query.query@.len() > old(self).spec_search_config().max_query_length
                        ==> reason@ == too_long_reason(
                        old(self).spec_search_config().max_query_length,
                    )))
                },
            },
    {
        let ghost qtext = query.query@;
        let ghost qm = query.model();
        let now = crate::utils::now_seconds();
        let r = self.search_with_params_at(query, now);
        proof {
            if r is Ok {
                let res = r.unwrap();
                let c0 = old(self).spec_cache();
                if old(self).spec_search_config().enable_query_cache && c0.lookup_model(
                    qtext,
                    now,
                ) is Some {
                    assert(Some(results_model(res@)) == c0.lookup_model(qtext, now));
                    assert(c0.entry_model_at(qtext) is Some);
                    assert(c0.lookup_model(qtext, now).unwrap() == c0.entry_model_at(
                        qtext,
                    ).unwrap().results);
                }
            }
        }
        r
    }

    /// Perform a search with the given query text and stock parameters.
    pub fn search(&mut self, query: &str) -> (r: Result<Vec<SearchResult>, SearchError>)
        requires
            old(self).wf(),
        ensures
            final(self).wf(),
            final(self).spec_trie() == old(self).spec_trie(),
            final(self).spec_vector_contents() == old(self).spec_vector_contents(),
            final(self).spec_vector_dim() == old(self).spec_vector_dim(),
            final(self).spec_storage() == old(self).spec_storage(),
            final(self).spec_search_config() == old(self).spec_search_config(),
            r is Ok <==> (old(self).spec_search_config().min_query_length <= query@.len()
                && query@.len() <= old(self).spec_search_config().max_query_length),
            match r {
                Ok(res) => {
                    &&& (match old(self).spec_cache().entry_model_at(query@) {
                        Some(en) => results_model(res@) == en.results || fused_results_ok(
                            old(self).spec_trie(),
                            old(self).spec_vector_contents(),
                            old(self).spec_vector_dim(),
                            old(self).spec_storage(),
                            stock_query_model(
                                query@,
                                old(self).spec_search_config().default_max_results,
                            ),
                            res@,
                        ),
                        None => fused_results_ok(
                            old(self).spec_trie(),
                            old(self).spec_vector_contents(),
                            old(self).spec_vector_dim(),
                            old(self).spec_storage(),
                            stock_query_model(
                                query@,
                                old(self).spec_search_config().default_max_results,
                            ),
                            res@,
                        ),
                    })
                    &&& (!old(self).spec_search_config().enable_query_cache ==> fused_results_ok(
                        old(self).spec_trie(),
                        old(self).spec_vector_contents(),
                        old(self).spec_vector_dim(),
                        old(self).spec_storage(),
                        stock_query_model(
                            query@,
                            old(self).spec_search_config().default_max_results,
                        ),
                        res@,
                    ))
                },
                Err(e) => {
                    &&& *final(self) == *old(self)
                    &&& (e matches SearchError::InvalidSearchQuery { query: q, reason } && q@
                        == query@ && (query@.len() < old(
                        self,
                    ).spec_search_config().min_query_length ==> reason@ == too_short_reason(
                        old(self).spec_search_config().min_query_length,
                    )) && (query@.len() >= old(self).spec_search_config().min_query_length
                        && query@.len() > old(self).spec_search_config().max_query_length
                        ==> reason@ == too_long_reason(
                        old(self).spec_search_config().max_query_length,
                    )))
                },
            },
    {
        let ghost qm_stock = stock_query_model(query@, self.config.search.default_max_results);
        let search_query = SearchQuery {
            query: String::from_str(query),
            max_results: Some(self.config.search.default_max_results),
            court_filter: None,
            date_range: None,
            config: SearchConfig::default(),
        };
        proof {
            assert(search_query.query@ == query@);
            assert(search_query.model() == qm_stock);
        }
        self.search_with_params(search_query)
    }

    /// Health check for the search engine: the in-memory components are
    /// always reachable.
    pub fn health_check(&self) -> (r: Result<(), SearchError>)
        ensures
            r is Ok,
    {
        Ok(())
    }

    /// Get search engine statistics.
    pub fn get_stats(&self) -> (r: SearchEngineStats)
        ensures
            r.total_cases_indexed == self.spec_storage().records().len(),
            r.vector_index_stats.total_vectors == self.spec_vector_contents().len(),
            r.cache_stats.size == self.spec_cache().count(),
            r.cache_stats.max_size == self.spec_cache().spec_max(),
    {
        SearchEngineStats {
            total_cases_indexed: self.storage.len(),
            vector_index_stats: self.vector_index.get_stats(),
            cache_stats: self.query_cache.get_stats(),
        }
    }
}

} // verus!

//! Hybrid search over legal case documents: a prefix-trie lexical index, a
//! layered proximity-graph semantic index, a time-bounded query cache, and a
//! coordinator that fuses their outputs into one ranked result list.
//!
//! Scores and vector components are fixed-point integers so that every piece
//! of ranking logic can be verified: a score of [`SCORE_SCALE`] stands for a
//! similarity of one, and a vector component `c` stands for the real value
//! `c / 1000`.

use vstd::prelude::*;

pub mod assoc;
pub mod config;
pub mod errors;
pub mod search;
pub mod storage;
pub mod text;
pub mod trie;
pub mod utils;
pub mod vector;

verus! {

/// Fixed-point scale for similarity scores: this value stands for 1.0.
pub const SCORE_SCALE: u32 = 1_000_000;

/// Largest magnitude allowed for a single vector component.
pub const COORD_LIMIT: i64 = 1_000_000;

/// Largest vector dimension an index accepts; together with [`COORD_LIMIT`]
/// it keeps every squared distance within `u64`.
pub const MAX_DIMENSION: usize = 1_000_000;

/// Unique identifier for a legal case: the 128-bit value of its UUID.
pub type CaseId = u128;

/// Addition on sizes that stops at the machine limit.
pub open spec fn sat_add_usize(a: nat, b: nat) -> nat {
    if a + b <= usize::MAX as nat {
        a + b
    } else {
        usize::MAX as nat
    }
}

/// Document reference containing case ID and position information.
#[derive(Debug, Clone, Copy, PartialEq, Eq)]
pub struct DocRef {
    /// Unique case identifier.
    pub case_id: CaseId,
    /// Paragraph or section index within the case.
    pub paragraph_index: usize,
    /// Character offset within the paragraph (optional).
    pub char_offset: Option<usize>,
}

/// Legal jurisdiction levels.
#[derive(Debug)]
pub enum Jurisdiction {
    Federal,
    State(String),
    Local(String),
    International,
}

/// Mathematical image of a [`Jurisdiction`], with strings as character
/// sequences.
pub ghost enum JurisdictionModel {
    Federal,
    State(Seq<char>),
    Local(Seq<char>),
    International,
}

impl Jurisdiction {
    /// What a jurisdiction value says, independent of string allocation.
    pub open spec fn model(&self) -> JurisdictionModel {
        match self {
            Jurisdiction::Federal => JurisdictionModel::Federal,
            Jurisdiction::State(s) => JurisdictionModel::State(s@),
            Jurisdiction::Local(s) => JurisdictionModel::Local(s@),
            Jurisdiction::International => JurisdictionModel::International,
        }
    }
}

impl Clone for Jurisdiction {
    fn clone(&self) -> (r: Self)
        ensures
            r.model() == self.model(),
    {
        match self {
            Jurisdiction::Federal => Jurisdiction::Federal,
            Jurisdiction::State(s) => Jurisdiction::State(s.clone()),
            Jurisdiction::Local(s) => Jurisdiction::Local(s.clone()),
            Jurisdiction::International => Jurisdiction::International,
        }
    }
}

/// Case metadata with all required fields. Dates are plain integers: the
/// decision date is a day number and the ingestion date a Unix timestamp in
/// seconds, so that date logic stays inside the verified library.
#[derive(Debug)]
pub struct CaseMetadata {
    /// Unique case identifier.
    pub id: CaseId,
    /// Case name/title.
    pub name: String,
    /// Primary citation.
    pub citation: String,
    /// Court that decided the case.
    pub court: String,
    /// Decision date, as a day number.
    pub decision_date: i64,
    /// Judge(s) who decided the case.
    pub judges: Vec<String>,
    /// Legal topics/categories.
    pub topics: Vec<String>,
    /// Full text of the case.
    pub full_text: String,
    /// Legal jurisdiction.
    pub jurisdiction: Jurisdiction,
    /// All citations for this case.
    pub citations: Vec<String>,
    /// Docket number.
    pub docket_number: Option<String>,
    /// Source URL.
    pub source_url: Option<String>,
    /// Word count.
    pub word_count: usize,
    /// Ingestion timestamp, in Unix seconds.
    pub ingestion_date: i64,
}

/// Mathematical image of a [`CaseMetadata`] record.
pub ghost struct CaseMetadataModel {
    pub id: CaseId,
    pub name: Seq<char>,
    pub citation: Seq<char>,
    pub court: Seq<char>,
    pub decision_date: i64,
    pub judges: Seq<Seq<char>>,
    pub topics: Seq<Seq<char>>,
    pub full_text: Seq<char>,
    pub jurisdiction: JurisdictionModel,
    pub citations: Seq<Seq<char>>,
    pub docket_number: Option<Seq<char>>,
    pub source_url: Option<Seq<char>>,
    pub word_count: usize,
    pub ingestion_date: i64,
}

/// View of an optional string as an optional character sequence.
pub open spec fn opt_str_model(s: Option<String>) -> Option<Seq<char>> {
    match s {
        Some(v) => Some(v@),
        None => None,
    }
}

impl CaseMetadata {
    /// What a metadata record says, independent of string allocation.
    pub open spec fn model(&self) -> CaseMetadataModel {
        CaseMetadataModel {
            id: self.id,
            name: self.name@,
            citation: self.citation@,
            court: self.court@,
            decision_date: self.decision_date,
            judges: self.judges.deep_view(),
            topics: self.topics.deep_view(),
            full_text: self.full_text@,
            jurisdiction: self.jurisdiction.model(),
            citations: self.citations.deep_view(),
            docket_number: opt_str_model(self.docket_number),
            source_url: opt_str_model(self.source_url),
            word_count: self.word_count,
            ingestion_date: self.ingestion_date,
        }
    }
}

/// Clones a string vector, keeping its contents.
pub fn clone_string_vec(v: &Vec<String>) -> (r: Vec<String>)
    ensures
        r.deep_view() == v.deep_view(),
{
    let mut r: Vec<String> = Vec::new();
    let mut i: usize = 0;
    while i < v.len()
        invariant
            i <= v.len(),
            r.len() == i,
            forall|k: int| 0 <= k < i ==> r.deep_view()[k] == v.deep_view()[k],
        decreases v.len() - i,
    {
        let s = v[i].clone();
        r.push(s);
        i += 1;
    }
    assert(r.deep_view() =~= v.deep_view());
    r
}

/// Clones an optional string, keeping its contents.
pub fn clone_opt_string(v: &Option<String>) -> (r: Option<String>)
    ensures
        opt_str_model(r) == opt_str_model(*v),
{
    match v {
        Some(s) => Some(s.clone()),
        None => None,
    }
}

impl Clone for CaseMetadata {
    fn clone(&self) -> (r: Self)
        ensures
            r.model() == self.model(),
    {
        CaseMetadata {
            id: self.id,
            name: self.name.clone(),
            citation: self.citation.clone(),
            court: self.court.clone(),
            decision_date: self.decision_date,
            judges: clone_string_vec(&self.judges),
            topics: clone_string_vec(&self.topics),
            full_text: self.full_text.clone(),
            jurisdiction: self.jurisdiction.clone(),
            citations: clone_string_vec(&self.citations),
            docket_number: clone_opt_string(&self.docket_number),
            source_url: clone_opt_string(&self.source_url),
            word_count: self.word_count,
            ingestion_date: self.ingestion_date,
        }
    }
}

/// Configuration for search behavior. Scores and thresholds are fixed-point
/// values on the [`SCORE_SCALE`] scale.
#[derive(Debug, Clone, Copy)]
pub struct SearchConfig {
    /// Maximum number of results to return.
    pub max_results: usize,
    /// Minimum similarity score for semantic results.
    pub min_similarity: u32,
    /// Weight for exact matches vs semantic matches.
    pub exact_match_weight: u32,
    /// Enable/disable semantic search.
    pub enable_semantic: bool,
    /// Enable/disable prefix matching.
    pub enable_prefix: bool,
}

impl Default for SearchConfig {
    /// The stock search behavior: ten results, a similarity floor of one
    /// half, exact matches weighted at twice a full similarity, and both
    /// stages enabled.
    fn default() -> (r: Self)
        ensures
            r.max_results == 10,
            r.min_similarity == SCORE_SCALE / 2,
            r.exact_match_weight == 2 * SCORE_SCALE,
            r.enable_semantic,
            r.enable_prefix,
    {
        SearchConfig {
            max_results: 10,
            min_similarity: 500_000,
            exact_match_weight: 2_000_000,
            enable_semantic: true,
            enable_prefix: true,
        }
    }
}

} // verus!

//! Error types for the search engine, with machine-checked classification
//! helpers.

use vstd::prelude::*;

verus! {

/// Errors the search engine reports. Errors that only wrap another crate's
/// error type live with the surrounding application, not here.
#[derive(Debug)]
pub enum SearchError {
    /// Network-related errors.
    NetworkError { details: String },
    /// Rate limiting errors.
    RateLimitExceeded { source: String, retry_after_seconds: Option<u64> },
    /// Data source unavailable.
    DataSourceUnavailable { source: String, details: String },
    /// Data parsing errors.
    DataParsing { source: String, details: String },
    /// Configuration errors.
    Config { message: String },
    /// Internal system errors.
    Internal { message: String },
    /// Serialization/deserialization errors.
    SerializationFailed { message: String },
    /// Validation errors.
    ValidationFailed { field: String, reason: String },
    /// Not supported operation.
    NotSupported { operation: String },
    /// Generic error with message.
    Generic { message: String },
    /// Invalid case format during ingestion.
    InvalidCaseFormat { file: String, details: String },
    /// Network error during ingestion.
    NetworkErrorDuringIngestion { details: String },
    /// Tokenization failure.
    TokenizationFailed { text_preview: String, reason: String },
    /// Text normalization error.
    TextNormalizationError { details: String },
    /// Unsupported text encoding.
    UnsupportedEncoding { encoding: String },
    /// Trie construction failure.
    TrieConstructionFailed { reason: String },
    /// Trie lookup error.
    TrieLookupError { query: String, details: String },
    /// FST compilation failure.
    FstCompilationFailed { reason: String },
    /// Embedding model not found.
    EmbeddingModelNotFound { model_path: String },
    /// Embedding generation failure.
    EmbeddingGenerationFailed { text_preview: String, reason: String },
    /// Vector index construction failure.
    VectorIndexFailed { reason: String },
    /// Layered-graph search error.
    HnswSearchError { details: String },
    /// Inference runtime error.
    OnnxRuntimeError { details: String },
    /// Database connection failure.
    DatabaseConnectionFailed { db_path: String, reason: String },
    /// Storage corruption detected.
    StorageCorrupted { location: String, details: String },
    /// Insufficient disk space.
    InsufficientDiskSpace { required_gb: u64, available_gb: u64 },
    /// Index not found.
    IndexNotFound { index_name: String },
    /// Index corrupted.
    IndexCorrupted { index_type: String, details: String },
    /// Search timeout.
    SearchTimeout { timeout_ms: u64 },
    /// Invalid search query.
    InvalidSearchQuery { query: String, reason: String },
    /// Search capacity exceeded.
    SearchCapacityExceeded { current_load: u8, details: String },
    /// Invalid API request.
    InvalidApiRequest { details: String },
    /// Authentication failure.
    AuthenticationFailed { reason: String },
    /// API rate limit exceeded.
    ApiRateLimitExceeded { requests_per_minute: u32 },
    /// Request payload too large.
    PayloadTooLarge { size_mb: u32, limit_mb: u32 },
    /// Memory allocation failure.
    MemoryAllocationFailed { requested_mb: u64 },
    /// Thread pool exhausted.
    ThreadPoolExhausted { active_threads: usize, max_threads: usize },
    /// System resource unavailable.
    SystemResourceUnavailable { resource: String, reason: String },
}

impl SearchError {
    /// Whether a retry can help with this error.
    pub open spec fn spec_is_recoverable(&self) -> bool {
        match self {
            SearchError::NetworkError { .. } => true,
            SearchError::RateLimitExceeded { .. } => true,
            SearchError::DatabaseConnectionFailed { .. } => true,
            SearchError::SearchTimeout { .. } => true,
            SearchError::ThreadPoolExhausted { .. } => true,
            SearchError::SearchCapacityExceeded { .. } => true,
            _ => false,
        }
    }

    /// Check if the error is recoverable (can be retried).
    pub fn is_recoverable(&self) -> (r: bool)
        ensures
            r == self.spec_is_recoverable(),
    {
        match self {
            SearchError::NetworkError { .. } => true,
            SearchError::RateLimitExceeded { .. } => true,
            SearchError::DatabaseConnectionFailed { .. } => true,
            SearchError::SearchTimeout { .. } => true,
            SearchError::ThreadPoolExhausted { .. } => true,
            SearchError::SearchCapacityExceeded { .. } => true,
            _ => false,
        }
    }

    /// The category name used for metrics and logging.
    pub open spec fn spec_category(&self) -> Seq<char> {
        match self {
            SearchError::Config { .. } => "configuration"@,
            SearchError::DataSourceUnavailable { .. } => "ingestion"@,
            SearchError::InvalidCaseFormat { .. } => "ingestion"@,
            SearchError::NetworkError { .. } => "ingestion"@,
            SearchError::RateLimitExceeded { .. } => "ingestion"@,
            SearchError::NetworkErrorDuringIngestion { .. } => "ingestion"@,
            SearchError::DataParsing { .. } => "ingestion"@,
            SearchError::TokenizationFailed { .. } => "text_processing"@,
            SearchError::TextNormalizationError { .. } => "text_processing"@,
            SearchError::UnsupportedEncoding { .. } => "text_processing"@,
            SearchError::TrieConstructionFailed { .. } => "trie"@,
            SearchError::TrieLookupError { .. } => "trie"@,
            SearchError::FstCompilationFailed { .. } => "trie"@,
            SearchError::EmbeddingModelNotFound { .. } => "vector"@,
            SearchError::EmbeddingGenerationFailed { .. } => "vector"@,
            SearchError::VectorIndexFailed { .. } => "vector"@,
            SearchError::HnswSearchError { .. } => "vector"@,
            SearchError::OnnxRuntimeError { .. } => "vector"@,
            SearchError::DatabaseConnectionFailed { .. } => "storage"@,
            SearchError::StorageCorrupted { .. } => "storage"@,
            SearchError::InsufficientDiskSpace { .. } => "storage"@,
            SearchError::SerializationFailed { .. } => "storage"@,
            SearchError::IndexNotFound { .. } => "search"@,
            SearchError::IndexCorrupted { .. } => "search"@,
            SearchError::SearchTimeout { .. } => "search"@,
            SearchError::InvalidSearchQuery { .. } => "search"@,
            SearchError::SearchCapacityExceeded { .. } => "search"@,
            SearchError::InvalidApiRequest { .. } => "api"@,
            SearchError::AuthenticationFailed { .. } => "api"@,
            SearchError::ApiRateLimitExceeded { .. } => "api"@,
            SearchError::PayloadTooLarge { .. } => "api"@,
            SearchError::MemoryAllocationFailed { .. } => "system"@,
            SearchError::ThreadPoolExhausted { .. } => "system"@,
            SearchError::SystemResourceUnavailable { .. } => "system"@,
            SearchError::Internal { .. } => "generic"@,
            SearchError::NotSupported { .. } => "generic"@,
            SearchError::ValidationFailed { .. } => "generic"@,
            SearchError::Generic { .. } => "generic"@,
        }
    }

    /// Get error category for metrics and logging.
    pub fn category(&self) -> (r: &'static str)
        ensures
            r@ == self.spec_category(),
    {
        match self {
            SearchError::Config { .. } => "configuration",
            SearchError::DataSourceUnavailable { .. } => "ingestion",
            SearchError::InvalidCaseFormat { .. } => "ingestion",
            SearchError::NetworkError { .. } => "ingestion",
            SearchError::RateLimitExceeded { .. } => "ingestion",
            SearchError::NetworkErrorDuringIngestion { .. } => "ingestion",
            SearchError::DataParsing { .. } => "ingestion",
            SearchError::TokenizationFailed { .. } => "text_processing",
            SearchError::TextNormalizationError { .. } => "text_processing",
            SearchError::UnsupportedEncoding { .. } => "text_processing",
            SearchError::TrieConstructionFailed { .. } => "trie",
            SearchError::TrieLookupError { .. } => "trie",
            SearchError::FstCompilationFailed { .. } => "trie",
            SearchError::EmbeddingModelNotFound { .. } => "vector",
            SearchError::EmbeddingGenerationFailed { .. } => "vector",
            SearchError::VectorIndexFailed { .. } => "vector",
            SearchError::HnswSearchError { .. } => "vector",
            SearchError::OnnxRuntimeError { .. } => "vector",
            SearchError::DatabaseConnectionFailed { .. } => "storage",
            SearchError::StorageCorrupted { .. } => "storage",
            SearchError::InsufficientDiskSpace { .. } => "storage",
            SearchError::SerializationFailed { .. } => "storage",
            SearchError::IndexNotFound { .. } => "search",
            SearchError::IndexCorrupted { .. } => "search",
            SearchError::SearchTimeout { .. } => "search",
            SearchError::InvalidSearchQuery { .. } => "search",
            SearchError::SearchCapacityExceeded { .. } => "search",
            SearchError::InvalidApiRequest { .. } => "api",
            SearchError::AuthenticationFailed { .. } => "api",
            SearchError::ApiRateLimitExceeded { .. } => "api",
            SearchError::PayloadTooLarge { .. } => "api",
            SearchError::MemoryAllocationFailed { .. } => "system",
            SearchError::ThreadPoolExhausted { .. } => "system",
            SearchError::SystemResourceUnavailable { .. } => "system",
            SearchError::Internal { .. } => "generic",
            SearchError::NotSupported { .. } => "generic",
            SearchError::ValidationFailed { .. } => "generic",
            SearchError::Generic { .. } => "generic",
        }
    }

    /// The recovery advice for this error, where any exists.
    pub open spec fn spec_recovery_suggestion(&self) -> Option<Seq<char>> {
        match self {
            SearchError::RateLimitExceeded { .. } => Some(
                "Wait and retry after the specified time"@,
            ),
            SearchError::NetworkError { .. } => Some("Check network connectivity and retry"@),
            SearchError::SearchTimeout { .. } => Some("Simplify query or increase timeout"@),
            SearchError::SearchCapacityExceeded { .. } => Some(
                "Reduce query complexity or try again later"@,
            ),
            SearchError::InsufficientDiskSpace { .. } => Some(
                "Free up disk space or increase storage"@,
            ),
            SearchError::ThreadPoolExhausted { .. } => Some("Reduce concurrent operations"@),
            _ => None,
        }
    }

    /// Get suggested recovery action.
    pub fn recovery_suggestion(&self) -> (r: Option<&'static str>)
        ensures
            match r {
                Some(s) => self.spec_recovery_suggestion() == Some(s@),
                None => self.spec_recovery_suggestion() is None,
            },
    {
        match self {
            SearchError::RateLimitExceeded { .. } => Some("Wait and retry after the specified time"),
            SearchError::NetworkError { .. } => Some("Check network connectivity and retry"),
            SearchError::SearchTimeout { .. } => Some("Simplify query or increase timeout"),
            SearchError::SearchCapacityExceeded { .. } => Some(
                "Reduce query complexity or try again later",
            ),
            SearchError::InsufficientDiskSpace { .. } => Some(
                "Free up disk space or increase storage",
            ),
            SearchError::ThreadPoolExhausted { .. } => Some("Reduce concurrent operations"),
            _ => None,
        }
    }
}

} // verus!

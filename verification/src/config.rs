//! Configuration types with verified defaults and validation. File loading,
//! environment overrides and serialization live with the surrounding
//! application; paths are plain strings here.

use vstd::prelude::*;

use crate::errors::SearchError;

verus! {

/// Server and API configuration.
#[derive(Debug, Clone)]
pub struct ServerConfig {
    /// Server bind address.
    pub host: String,
    /// Server port.
    pub port: u16,
    /// Maximum request payload size in MB.
    pub max_payload_size_mb: u32,
    /// Request timeout in seconds.
    pub request_timeout_seconds: u64,
    /// Enable CORS.
    pub enable_cors: bool,
    /// API key for authentication (optional).
    pub api_key: Option<String>,
    /// Rate limiting (requests per minute).
    pub rate_limit_rpm: u32,
}

/// Caselaw Access Project configuration.
#[derive(Debug, Clone)]
pub struct CapConfig {
    /// API base URL.
    pub api_url: String,
    /// API key for authentication.
    pub api_key: Option<String>,
    /// Bulk data download URL.
    pub bulk_data_url: String,
    /// Local cache directory for downloaded data.
    pub cache_dir: String,
}

/// CourtListener configuration.
#[derive(Debug, Clone)]
pub struct CourtListenerConfig {
    /// API base URL.
    pub api_url: String,
    /// API key for authentication.
    pub api_key: Option<String>,
    /// Local cache directory.
    pub cache_dir: String,
}

/// Sentence splitting configuration.
#[derive(Debug, Clone)]
pub struct SentenceSplittingConfig {
    /// Enable sentence splitting.
    pub enabled: bool,
    /// Minimum sentence length in characters.
    pub min_sentence_length: usize,
    /// Maximum sentence length in characters.
    pub max_sentence_length: usize,
}

/// Text processing configuration.
#[derive(Debug, Clone)]
pub struct TextProcessingConfig {
    /// Tokenizer model path.
    pub tokenizer_model_path: String,
    /// Enable case folding (lowercase conversion).
    pub enable_case_folding: bool,
    /// Enable Unicode normalization.
    pub enable_unicode_normalization: bool,
    /// Preserve legal citations as single tokens.
    pub preserve_legal_citations: bool,
    /// Maximum text length for processing.
    pub max_text_length: usize,
    /// Remove extra whitespace.
    pub remove_extra_whitespace: bool,
    /// Normalize quote characters.
    pub normalize_quotes: bool,
    /// Extract citations from text.
    pub extract_citations: bool,
    /// Extract named entities.
    pub extract_entities: bool,
    /// Sentence splitting configuration.
    pub sentence_splitting: SentenceSplittingConfig,
}

/// Trie index configuration.
#[derive(Debug)]
pub struct TrieConfig {
    /// Use FST (finite state transducer) compression.
    pub use_fst: bool,
    /// Index case names separately.
    pub index_case_names: bool,
    /// Index legal citations.
    pub index_citations: bool,
    /// Maximum prefix length for auto-completion.
    pub max_prefix_length: usize,
    /// Index file path.
    pub index_path: String,
    /// Enable memory mapping for FST.
    pub enable_memory_mapping: bool,
}

/// Embedding model configuration.
#[derive(Debug)]
pub struct EmbeddingModelConfig {
    /// Model file path.
    pub model_path: String,
    /// Tokenizer configuration path.
    pub tokenizer_path: String,
    /// Model type identifier.
    pub model_type: String,
    /// Use GPU acceleration if available.
    pub use_gpu: bool,
    /// Batch size for embedding generation.
    pub batch_size: usize,
    /// Maximum sequence length.
    pub max_sequence_length: usize,
}

/// Layered-graph (HNSW) configuration.
#[derive(Debug)]
pub struct HnswConfig {
    /// Number of bi-directional links for each node (M parameter).
    pub m: usize,
    /// Size of the dynamic candidate list during construction.
    pub ef_construction: usize,
    /// Size of the dynamic candidate list during search.
    pub ef_search: usize,
    /// Maximum number of elements in the index.
    pub max_elements: usize,
    /// Index file path.
    pub index_path: String,
}

/// Vector search configuration. The similarity threshold is a fixed-point
/// score on the [`crate::SCORE_SCALE`] scale.
#[derive(Debug)]
pub struct VectorConfig {
    /// Embedding model configuration.
    pub model: EmbeddingModelConfig,
    /// Layered-graph index configuration.
    pub hnsw: HnswConfig,
    /// Vector dimension (must match model output).
    pub dimension: usize,
    /// Similarity threshold for results.
    pub similarity_threshold: u32,
    /// Maximum vectors to return from ANN search.
    pub max_ann_results: usize,
}

/// Backup configuration.
#[derive(Debug, Clone)]
pub struct BackupConfig {
    /// Enable automatic backups.
    pub enabled: bool,
    /// Backup directory.
    pub backup_dir: String,
    /// Backup interval in hours.
    pub interval_hours: u64,
    /// Maximum number of backups to retain.
    pub max_backups: u32,
}

/// Storage and database configuration.
#[derive(Debug, Clone)]
pub struct StorageConfig {
    /// Database type.
    pub db_type: String,
    /// Database file path.
    pub db_path: String,
    /// Maximum database size in GB.
    pub max_db_size_gb: u64,
    /// Enable database compression.
    pub enable_compression: bool,
    /// Backup configuration.
    pub backup: BackupConfig,
}

/// Search engine configuration.
#[derive(Debug, Clone, Copy)]
pub struct SearchEngineConfig {
    /// Default maximum number of results.
    pub default_max_results: usize,
    /// Search timeout in milliseconds.
    pub search_timeout_ms: u64,
    /// Enable query caching.
    pub enable_query_cache: bool,
    /// Query cache size (number of entries).
    pub query_cache_size: usize,
    /// Query cache TTL in seconds.
    pub query_cache_ttl_seconds: u64,
    /// Minimum query length.
    pub min_query_length: usize,
    /// Maximum query length.
    pub max_query_length: usize,
}

/// Logging and monitoring configuration.
#[derive(Debug, Clone)]
pub struct LoggingConfig {
    /// Log level (trace, debug, info, warn, error).
    pub level: String,
    /// Log file path (optional; stdout if not specified).
    pub file_path: Option<String>,
    /// Enable structured JSON logging.
    pub json_format: bool,
    /// Enable performance metrics logging.
    pub enable_metrics: bool,
    /// Metrics collection interval in seconds.
    pub metrics_interval_seconds: u64,
}

/// Garbage collection configuration.
#[derive(Debug, Clone)]
pub struct GcConfig {
    /// Enable periodic garbage collection.
    pub enabled: bool,
    /// GC interval in seconds.
    pub interval_seconds: u64,
    /// Memory threshold for triggering GC (percentage).
    pub memory_threshold_percent: u8,
}

/// Performance tuning configuration.
#[derive(Debug, Clone)]
pub struct PerformanceConfig {
    /// Number of worker threads for the runtime.
    pub worker_threads: usize,
    /// Thread pool size for CPU-intensive tasks.
    pub cpu_pool_size: usize,
    /// Enable memory pool for allocations.
    pub enable_memory_pool: bool,
    /// Garbage collection settings.
    pub gc: GcConfig,
}

/// Data validation configuration.
#[derive(Debug, Clone)]
pub struct ValidationConfig {
    /// Minimum text length.
    pub min_text_length: usize,
    /// Maximum text length.
    pub max_text_length: usize,
    /// Required metadata fields.
    pub required_fields: Vec<String>,
    /// Allow empty citations.
    pub allow_empty_citations: bool,
    /// Validate dates.
    pub validate_dates: bool,
    /// Validate citations.
    pub validate_citations: bool,
}

/// Cache configuration.
#[derive(Debug, Clone)]
pub struct CacheConfig {
    /// Enable caching.
    pub enabled: bool,
    /// Maximum memory cache entries.
    pub max_memory_entries: usize,
    /// Disk cache path.
    pub disk_cache_path: Option<String>,
    /// Maximum disk cache size (MB).
    pub max_disk_size_mb: usize,
    /// Time to live for cache entries (hours).
    pub ttl_hours: u64,
}

/// Data ingestion configuration.
#[derive(Debug, Clone)]
pub struct IngestionConfig {
    /// Caselaw Access Project settings.
    pub cap: CapConfig,
    /// CourtListener settings.
    pub courtlistener: CourtListenerConfig,
    /// Batch processing settings.
    pub batch_size: usize,
    /// Maximum concurrent downloads.
    pub max_concurrent_downloads: usize,
    /// Maximum concurrent processing jobs.
    pub max_concurrent_jobs: usize,
    /// Rate limiting delay between requests (ms).
    pub rate_limit_delay_ms: u64,
    /// Maximum memory usage before triggering cleanup (MB).
    pub max_memory_usage_mb: usize,
    /// Retry attempts.
    pub retry_attempts: u32,
    /// Retry delay in seconds.
    pub retry_delay_seconds: u64,
    /// Enable incremental updates.
    pub enable_incremental_updates: bool,
    /// Update check interval in hours.
    pub update_check_interval_hours: u64,
    /// Validation configuration.
    pub validation: ValidationConfig,
    /// Cache configuration.
    pub cache: CacheConfig,
}

/// Main configuration structure containing all system settings.
#[derive(Debug, Clone)]
pub struct Config {
    /// Server and API configuration.
    pub server: ServerConfig,
    /// Data ingestion settings.
    pub ingestion: IngestionConfig,
    /// Text processing configuration.
    pub text_processing: TextProcessingConfig,
    /// Trie index configuration.
    pub trie: TrieConfig,
    /// Vector search configuration.
    pub vector: VectorConfig,
    /// Storage and database settings.
    pub storage: StorageConfig,
    /// Search engine behavior.
    pub search: SearchEngineConfig,
    /// Logging and monitoring.
    pub logging: LoggingConfig,
    /// Performance tuning.
    pub performance: PerformanceConfig,
}


impl Clone for TrieConfig {
    /// An exact copy.
    fn clone(&self) -> (r: Self)
        ensures
            r == *self,
    {
        TrieConfig {
            use_fst: self.use_fst,
            index_case_names: self.index_case_names,
            index_citations: self.index_citations,
            max_prefix_length: self.max_prefix_length,
            index_path: self.index_path.clone(),
            enable_memory_mapping: self.enable_memory_mapping,
        }
    }
}

impl Clone for HnswConfig {
    /// An exact copy.
    fn clone(&self) -> (r: Self)
        ensures
            r == *self,
    {
        HnswConfig {
            m: self.m,
            ef_construction: self.ef_construction,
            ef_search: self.ef_search,
            max_elements: self.max_elements,
            index_path: self.index_path.clone(),
        }
    }
}

impl Clone for EmbeddingModelConfig {
    /// An exact copy.
    fn clone(&self) -> (r: Self)
        ensures
            r == *self,
    {
        EmbeddingModelConfig {
            model_path: self.model_path.clone(),
            tokenizer_path: self.tokenizer_path.clone(),
            model_type: self.model_type.clone(),
            use_gpu: self.use_gpu,
            batch_size: self.batch_size,
            max_sequence_length: self.max_sequence_length,
        }
    }
}

impl Clone for VectorConfig {
    /// An exact copy.
    fn clone(&self) -> (r: Self)
        ensures
            r == *self,
    {
        VectorConfig {
            model: self.model.clone(),
            hnsw: self.hnsw.clone(),
            dimension: self.dimension,
            similarity_threshold: self.similarity_threshold,
            max_ann_results: self.max_ann_results,
        }
    }
}

/// Relies on `num_cpus::get`: the number of logical CPUs, which is always at
/// least one.
#[verifier::external_body]
fn logical_cpu_count() -> (r: usize)
    ensures
        r >= 1,
{
    num_cpus::get()
}

/// The stock settings, apart from the machine-dependent thread counts.
pub open spec fn is_default_config(c: Config) -> bool {
    &&& c.server.host@ == "127.0.0.1"@
    &&& c.server.port == 8080
    &&& c.server.max_payload_size_mb == 10
    &&& c.server.request_timeout_seconds == 30
    &&& c.server.enable_cors
    &&& c.server.api_key is None
    &&& c.server.rate_limit_rpm == 1000
    &&& c.ingestion.batch_size == 100
    &&& c.ingestion.max_concurrent_downloads == 5
    &&& c.ingestion.max_concurrent_jobs == 10
    &&& c.ingestion.rate_limit_delay_ms == 500
    &&& c.ingestion.max_memory_usage_mb == 1024
    &&& c.ingestion.retry_attempts == 3
    &&& c.ingestion.retry_delay_seconds == 5
    &&& c.ingestion.enable_incremental_updates
    &&& c.ingestion.update_check_interval_hours == 24
    &&& c.ingestion.validation.min_text_length == 100
    &&& c.ingestion.validation.max_text_length == 1_000_000
    &&& c.ingestion.validation.required_fields.deep_view() == seq![
        "title"@,
        "date"@,
        "court"@,
        "case_name"@,
    ]
    &&& !c.ingestion.validation.allow_empty_citations
    &&& c.ingestion.validation.validate_dates
    &&& c.ingestion.validation.validate_citations
    &&& c.ingestion.cache.enabled
    &&& c.ingestion.cache.max_memory_entries == 100_000
    &&& c.ingestion.cache.disk_cache_path is None
    &&& c.ingestion.cache.max_disk_size_mb == 1024
    &&& c.ingestion.cache.ttl_hours == 24
    &&& c.text_processing.enable_case_folding
    &&& c.text_processing.enable_unicode_normalization
    &&& c.text_processing.preserve_legal_citations
    &&& c.text_processing.max_text_length == 1_000_000
    &&& c.text_processing.remove_extra_whitespace
    &&& c.text_processing.normalize_quotes
    &&& c.text_processing.extract_citations
    &&& c.text_processing.extract_entities
    &&& c.text_processing.sentence_splitting.enabled
    &&& c.text_processing.sentence_splitting.min_sentence_length == 10
    &&& c.text_processing.sentence_splitting.max_sentence_length == 1000
    &&& c.trie.use_fst
    &&& c.trie.index_case_names
    &&& c.trie.index_citations
    &&& c.trie.max_prefix_length == 50
    &&& c.trie.enable_memory_mapping
    &&& c.vector.model.model_type@ == "legal-bert"@
    &&& !c.vector.model.use_gpu
    &&& c.vector.model.batch_size == 32
    &&& c.vector.model.max_sequence_length == 512
    &&& c.vector.hnsw.m == 16
    &&& c.vector.hnsw.ef_construction == 200
    &&& c.vector.hnsw.ef_search == 50
    &&& c.vector.hnsw.max_elements == 10_000_000
    &&& c.vector.dimension == 768
    &&& c.vector.similarity_threshold == crate::SCORE_SCALE / 2
    &&& c.vector.max_ann_results == 100
    &&& c.storage.db_type@ == "sled"@
    &&& c.storage.max_db_size_gb == 100
    &&& c.storage.enable_compression
    &&& c.storage.backup.enabled
    &&& c.storage.backup.interval_hours == 24
    &&& c.storage.backup.max_backups == 7
    &&& c.search.default_max_results == 10
    &&& c.search.search_timeout_ms == 5000
    &&& c.search.enable_query_cache
    &&& c.search.query_cache_size == 10000
    &&& c.search.query_cache_ttl_seconds == 3600
    &&& c.search.min_query_length == 2
    &&& c.search.max_query_length == 1000
    &&& c.logging.level@ == "info"@
    &&& c.logging.file_path is None
    &&& !c.logging.json_format
    &&& c.logging.enable_metrics
    &&& c.logging.metrics_interval_seconds == 60
    &&& c.performance.worker_threads >= 1
    &&& (c.performance.cpu_pool_size == c.performance.worker_threads * 2 || (
    c.performance.cpu_pool_size == usize::MAX && c.performance.worker_threads * 2
        > usize::MAX as int))
    &&& c.performance.enable_memory_pool
    &&& c.performance.gc.enabled
    &&& c.performance.gc.interval_seconds == 300
    &&& c.performance.gc.memory_threshold_percent == 80
}

impl Default for Config {
    /// The stock configuration; thread counts come from the machine.
    fn default() -> (c: Self)
        ensures
            is_default_config(c),
    {
        let worker_threads = logical_cpu_count();
        let cpu_pool_size = if worker_threads <= usize::MAX / 2 {
            worker_threads * 2
        } else {
            usize::MAX
        };
        let mut required_fields: Vec<String> = Vec::new();
        required_fields.push(String::from_str("title"));
        required_fields.push(String::from_str("date"));
        required_fields.push(String::from_str("court"));
        required_fields.push(String::from_str("case_name"));
        proof {
            assert(required_fields.deep_view() =~= seq![
                "title"@,
                "date"@,
                "court"@,
                "case_name"@,
            ]);
        }
        Config {
            server: ServerConfig {
                host: String::from_str("127.0.0.1"),
                port: 8080,
                max_payload_size_mb: 10,
                request_timeout_seconds: 30,
                enable_cors: true,
                api_key: None,
                rate_limit_rpm: 1000,
            },
            ingestion: IngestionConfig {
                cap: CapConfig {
                    api_url: String::from_str("https://api.case.law/v1/"),
                    api_key: None,
                    bulk_data_url: String::from_str("https://bulk.case.law/"),
                    cache_dir: String::from_str("./data/cap_cache"),
                },
                courtlistener: CourtListenerConfig {
                    api_url: String::from_str("https://www.courtlistener.com/api/rest/v3/"),
                    api_key: None,
                    cache_dir: String::from_str("./data/cl_cache"),
                },
                batch_size: 100,
                max_concurrent_downloads: 5,
                max_concurrent_jobs: 10,
                rate_limit_delay_ms: 500,
                max_memory_usage_mb: 1024,
                retry_attempts: 3,
                retry_delay_seconds: 5,
                enable_incremental_updates: true,
                update_check_interval_hours: 24,
                validation: ValidationConfig {
                    min_text_length: 100,
                    max_text_length: 1_000_000,
                    required_fields,
                    allow_empty_citations: false,
                    validate_dates: true,
                    validate_citations: true,
                },
                cache: CacheConfig {
                    enabled: true,
                    max_memory_entries: 100_000,
                    disk_cache_path: None,
                    max_disk_size_mb: 1024,
                    ttl_hours: 24,
                },
            },
            text_processing: TextProcessingConfig {
                tokenizer_model_path: String::from_str("./models/tokenizer.json"),
                enable_case_folding: true,
                enable_unicode_normalization: true,
                preserve_legal_citations: true,
                max_text_length: 1_000_000,
                remove_extra_whitespace: true,
                normalize_quotes: true,
                extract_citations: true,
                extract_entities: true,
                sentence_splitting: SentenceSplittingConfig {
                    enabled: true,
                    min_sentence_length: 10,
                    max_sentence_length: 1000,
                },
            },
            trie: TrieConfig {
                use_fst: true,
                index_case_names: true,
                index_citations: true,
                max_prefix_length: 50,
                index_path: String::from_str("./data/trie_index"),
                enable_memory_mapping: true,
            },
            vector: VectorConfig {
                model: EmbeddingModelConfig {
                    model_path: String::from_str("./models/legal-bert.onnx"),
                    tokenizer_path: String::from_str("./models/tokenizer.json"),
                    model_type: String::from_str("legal-bert"),
                    use_gpu: false,
                    batch_size: 32,
                    max_sequence_length: 512,
                },
                hnsw: HnswConfig {
                    m: 16,
                    ef_construction: 200,
                    ef_search: 50,
                    max_elements: 10_000_000,
                    index_path: String::from_str("./data/vector_index"),
                },
                dimension: 768,
                similarity_threshold: 500_000,
                max_ann_results: 100,
            },
            storage: StorageConfig {
                db_type: String::from_str("sled"),
                db_path: String::from_str("./data/legal_search.db"),
                max_db_size_gb: 100,
                enable_compression: true,
                backup: BackupConfig {
                    enabled: true,
                    backup_dir: String::from_str("./backups"),
                    interval_hours: 24,
                    max_backups: 7,
                },
            },
            search: SearchEngineConfig {
                default_max_results: 10,
                search_timeout_ms: 5000,
                enable_query_cache: true,
                query_cache_size: 10000,
                query_cache_ttl_seconds: 3600,
                min_query_length: 2,
                max_query_length: 1000,
            },
            logging: LoggingConfig {
                level: String::from_str("info"),
                file_path: None,
                json_format: false,
                enable_metrics: true,
                metrics_interval_seconds: 60,
            },
            performance: PerformanceConfig {
                worker_threads,
                cpu_pool_size,
                enable_memory_pool: true,
                gc: GcConfig { enabled: true, interval_seconds: 300, memory_threshold_percent: 80 },
            },
        }
    }
}

impl Config {
    /// The value-level checks of configuration validation: port, vector
    /// dimension and graph fan-out are nonzero and the query length window
    /// is ordered. Path existence is the application's concern.
    pub open spec fn spec_valid(&self) -> bool {
        &&& self.server.port != 0
        &&& self.vector.dimension != 0
        &&& self.vector.hnsw.m != 0
        &&& self.search.min_query_length <= self.search.max_query_length
    }

    /// Validate configuration values, reporting the first offending field.
    pub fn validate(&self) -> (r: Result<(), SearchError>)
        ensures
            r is Ok <==> self.spec_valid(),
            self.server.port == 0 ==> (r matches Err(SearchError::ValidationFailed { field, .. })
                && field@ == "server.port"@),
            self.server.port != 0 && self.vector.dimension == 0 ==> (r matches Err(
                SearchError::ValidationFailed { field, .. },
            ) && field@ == "vector.dimension"@),
            self.server.port != 0 && self.vector.dimension != 0 && self.vector.hnsw.m == 0 ==> (
            r matches Err(SearchError::ValidationFailed { field, .. }) && field@
                == "vector.hnsw.m"@),
            self.server.port != 0 && self.vector.dimension != 0 && self.vector.hnsw.m != 0
                && self.search.min_query_length > self.search.max_query_length ==> (r matches Err(
                SearchError::ValidationFailed { field, .. },
            ) && field@ == "search.min_query_length"@),
    {
        if self.server.port == 0 {
            return Err(SearchError::ValidationFailed {
                field: String::from_str("server.port"),
                reason: String::from_str("Port cannot be zero"),
            });
        }
        if self.vector.dimension == 0 {
            return Err(SearchError::ValidationFailed {
                field: String::from_str("vector.dimension"),
                reason: String::from_str("Vector dimension must be greater than zero"),
            });
        }
        if self.vector.hnsw.m == 0 {
            return Err(SearchError::ValidationFailed {
                field: String::from_str("vector.hnsw.m"),
                reason: String::from_str("Graph fan-out must be greater than zero"),
            });
        }
        if self.search.min_query_length > self.search.max_query_length {
            return Err(SearchError::ValidationFailed {
                field: String::from_str("search.min_query_length"),
                reason: String::from_str("Minimum query length cannot be greater than maximum"),
            });
        }
        Ok(())
    }
}

} // verus!

//! Plain data exchanged with the application around the library.
use vstd::prelude::*;
use std::collections::HashMap;

verus! {

#[derive(Debug, Clone)]
pub struct PreprocessOptions {
    pub strip_html: bool,
    pub redact_pii: bool,
    pub normalize_punctuation: bool,
    pub auto_language: bool,
    pub chunk_size_tokens: i32,
    pub overlap_tokens: i32,
    pub align_to_paragraphs: bool,
    pub paragraph_merge_min_chars: i32,
    pub paragraph_split_max_sentence_len: i32,
}

impl Default for PreprocessOptions {
    /// All switches off and all sizes zero.
    fn default() -> (r: Self)
        ensures
            !r.strip_html && !r.redact_pii && !r.normalize_punctuation && !r.auto_language,
            r.chunk_size_tokens == 0 && r.overlap_tokens == 0 && !r.align_to_paragraphs,
            r.paragraph_merge_min_chars == 0 && r.paragraph_split_max_sentence_len == 0,
    {
        PreprocessOptions {
            strip_html: false,
            redact_pii: false,
            normalize_punctuation: false,
            auto_language: false,
            chunk_size_tokens: 0,
            overlap_tokens: 0,
            align_to_paragraphs: false,
            paragraph_merge_min_chars: 0,
            paragraph_split_max_sentence_len: 0,
        }
    }
}

#[derive(Debug, Clone)]
pub struct ChunkingOptions {
    pub chunk_size_tokens: i32,
    pub overlap_tokens: i32,
}

impl Default for ChunkingOptions {
    /// Chunks of 1500 tokens overlapping by 150.
    fn default() -> (r: Self)
        ensures
            r.chunk_size_tokens == 1500 && r.overlap_tokens == 150,
    {
        ChunkingOptions { chunk_size_tokens: 1500, overlap_tokens: 150 }
    }
}

#[derive(Debug, Clone)]
pub struct DetectRequest {
    pub text: String,
    pub language: Option<String>,
    pub genre: Option<String>,
    pub providers: Vec<String>,
    pub use_perplexity: bool,
    pub use_stylometry: bool,
    pub preprocess_options: PreprocessOptions,
    pub chunking: ChunkingOptions,
    pub sensitivity: String,
}

#[derive(Debug, Clone)]
pub struct BatchItemRequest {
    pub id: String,
    pub text: String,
    pub language: Option<String>,
    pub genre: Option<String>,
    pub providers: Vec<String>,
    pub use_perplexity: bool,
    pub use_stylometry: bool,
    pub preprocess_options: PreprocessOptions,
    pub chunking: ChunkingOptions,
    pub sensitivity: String,
}

#[derive(Debug, Clone)]
pub struct BatchDetectRequest {
    pub items: Vec<BatchItemRequest>,
    pub parallel: Option<i32>,
}

#[derive(Debug, Clone)]
pub struct PaperAnalyzeRequest {
    pub text: String,
    pub language: Option<String>,
    pub genre: Option<String>,
    pub rounds: i32,
    pub use_llm: bool,
}

#[derive(Debug, Clone, Default)]
pub struct PreprocessSummary {
    pub language: String,
    pub chunks: i32,
    pub redacted: i32,
}

#[derive(Debug, Clone, Copy, PartialEq, Eq, Structural)]
pub struct SegmentOffsets {
    /// UTF-8 byte offset (0-based) into the analysed text.
    pub start: i32,
    /// UTF-8 byte offset (0-based, end-exclusive) into the analysed text.
    pub end: i32,
}

#[derive(Debug, Clone)]
pub struct ConsistencyIssue {
    pub segment_id: i32,
    pub kind: String,
    pub message: String,
}

#[derive(Debug, Clone)]
pub struct ConsistencyCheckResponse {
    pub ok: bool,
    pub issues: Vec<ConsistencyIssue>,
}

#[derive(Debug, Clone)]
pub struct HistorySaveResponse {
    pub ok: bool,
    pub total: i32,
}

#[derive(Debug, Clone)]
pub struct ReviewSubmitResponse {
    pub ok: bool,
    pub total: i32,
    pub pass_count: i32,
    pub review_count: i32,
    pub flag_count: i32,
}

#[derive(Debug, Clone)]
pub struct PromptVariant {
    pub id: String,
    pub name: String,
    pub style: String,
    pub schema_version: String,
}

#[derive(Debug, Clone)]
pub struct PromptVariantsResponse {
    pub items: Vec<PromptVariant>,
}

#[derive(Debug, Clone)]
pub struct SuggestionItem {
    pub title: String,
    pub detail: String,
}

/// What a chat provider answered.
#[derive(Debug, Clone)]
pub struct ChatResult {
    pub content: String,
    pub latency_ms: i64,
    pub reasoning: Option<String>,
}

/// Settings of one provider.
#[derive(Debug, Clone, Default)]
pub struct ProviderConfig {
    pub enabled: bool,
    pub model: Option<String>,
    pub base_url: Option<String>,
}

#[derive(Debug, Clone, Default)]
pub struct ProxyConfig {
    pub enabled: bool,
    pub http: Option<String>,
    pub https: Option<String>,
}

#[derive(Debug, Clone)]
pub struct DetectionConfig {
    pub sensitivity: String,
    pub use_perplexity: bool,
    pub use_stylometry: bool,
    pub chunk_size_tokens: i32,
    pub overlap_tokens: i32,
}

impl Default for DetectionConfig {
    /// Medium sensitivity, both local signals on, chunks of 1500 tokens overlapping by 150.
    fn default() -> (r: Self)
        ensures
            r.sensitivity@ == "medium"@,
            r.use_perplexity && r.use_stylometry,
            r.chunk_size_tokens == 1500 && r.overlap_tokens == 150,
    {
        DetectionConfig {
            sensitivity: "medium".to_string(),
            use_perplexity: true,
            use_stylometry: true,
            chunk_size_tokens: 1500,
            overlap_tokens: 150,
        }
    }
}

/// The application's stored settings.
#[derive(Debug, Clone)]
pub struct AppConfig {
    pub version: String,
    pub default_provider: Option<String>,
    pub proxy: Option<ProxyConfig>,
    pub detection: DetectionConfig,
    pub providers: HashMap<String, ProviderConfig>,
    pub api_keys: HashMap<String, String>,
}

impl Default for AppConfig {
    /// No version, provider or proxy, default detection settings, and no provider
    /// settings or keys.
    fn default() -> (r: Self)
        ensures
            r.version@ == Seq::<char>::empty(),
            r.default_provider is None,
            r.proxy is None,
            r.detection.sensitivity@ == "medium"@,
            r.detection.use_perplexity && r.detection.use_stylometry,
            r.detection.chunk_size_tokens == 1500 && r.detection.overlap_tokens == 150,
            r.providers@ == Map::<String, ProviderConfig>::empty(),
            r.api_keys@ == Map::<String, String>::empty(),
    {
        AppConfig {
            version: String::new(),
            default_provider: None,
            proxy: None,
            detection: DetectionConfig::default(),
            providers: HashMap::new(),
            api_keys: HashMap::new(),
        }
    }
}

} // verus!

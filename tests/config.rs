use cheek_ai::models::{AppConfig, ChunkingOptions, DetectionConfig};

#[test]
fn test_default_config() {
    let config = AppConfig::default();
    assert_eq!(config.detection.sensitivity, "medium");
    assert!(config.detection.use_perplexity);
}

#[test]
fn default_detection_and_chunking() {
    let d = DetectionConfig::default();
    assert!(d.use_stylometry);
    assert_eq!(d.chunk_size_tokens, 1500);
    assert_eq!(d.overlap_tokens, 150);
    let c = ChunkingOptions::default();
    assert_eq!(c.chunk_size_tokens, 1500);
    assert_eq!(c.overlap_tokens, 150);
    let a = AppConfig::default();
    assert!(a.providers.is_empty());
    assert!(a.api_keys.is_empty());
    assert_eq!(a.version, "");
}

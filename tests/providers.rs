use cheek_ai::providers::{clean_api_key, default_model, is_official_anthropic_url, key_for, parse_provider, resolve_provider_spec, select_provider, text_contains};

#[test]
fn test_parse_provider() {
    let spec = parse_provider("glm:glm-4-plus");
    assert_eq!(spec.name, "glm");
    assert_eq!(spec.model, "glm-4-plus");

    let spec2 = parse_provider("deepseek");
    assert_eq!(spec2.name, "deepseek");
    assert_eq!(spec2.model, "");
}

#[test]
fn parse_provider_splits_at_first_colon_only() {
    let spec = parse_provider("openai:gpt:mini");
    assert_eq!(spec.name, "openai");
    assert_eq!(spec.model, "gpt:mini");
    let empty = parse_provider("");
    assert_eq!(empty.name, "");
    assert_eq!(empty.model, "");
}

#[test]
fn test_clean_api_key() {
    assert_eq!(clean_api_key("  sk-xxx  "), "sk-xxx");
    assert_eq!(clean_api_key("Bearer sk-xxx"), "sk-xxx");
    assert_eq!(clean_api_key("bearer sk-xxx"), "sk-xxx");
    assert_eq!(clean_api_key("\"sk-xxx\""), "sk-xxx");
    assert_eq!(clean_api_key("'sk-xxx'"), "sk-xxx");
}

#[test]
fn clean_api_key_edge_cases() {
    assert_eq!(clean_api_key("\""), "\"");
    assert_eq!(clean_api_key("\"sk-xxx'"), "\"sk-xxx'");
    assert_eq!(clean_api_key(" 'BEARER  sk-1' "), "sk-1");
    assert_eq!(clean_api_key("Bearersk"), "Bearersk");
    assert_eq!(clean_api_key("\u{3000}key\u{a0}"), "key");
}

#[test]
fn anthropic_url_detection() {
    assert!(is_official_anthropic_url("https://api.anthropic.com/v1/messages"));
    assert!(!is_official_anthropic_url("https://gateway.example.com/anthropic"));
    assert!(text_contains("abc", ""));
    assert!(!text_contains("ab", "abc"));
}

#[test]
fn provider_falls_back_to_an_available_key() {
    let keys = vec![("glm".to_string(), "k-glm".to_string())];
    let r = resolve_provider_spec(Some("deepseek"), &keys).unwrap();
    assert_eq!(r, ("glm".to_string(), "glm-4-flash".to_string(), "k-glm".to_string()));
    let named = resolve_provider_spec(Some("glm:glm-4-plus"), &keys).unwrap();
    assert_eq!(named.1, "glm-4-plus");
    let default = resolve_provider_spec(Some("glm: "), &keys).unwrap();
    assert_eq!(default.1, "glm-4-flash");
    assert_eq!(resolve_provider_spec(None, &[]), None);
    let both = vec![("anthropic".to_string(), "a".to_string()), ("openai".to_string(), "o".to_string())];
    assert_eq!(resolve_provider_spec(None, &both).unwrap().0, "openai");
    assert_eq!(key_for(&both, "anthropic"), Some("a".to_string()));
    assert_eq!(default_model("deepseek"), Some("deepseek-chat"));
    assert_eq!(default_model("anthropic"), None);
    let only_anthropic = vec![("anthropic".to_string(), "a".to_string())];
    assert_eq!(resolve_provider_spec(None, &only_anthropic), Some(("anthropic".to_string(), String::new(), "a".to_string())));
    assert_eq!(default_model("other"), None);
}

#[test]
fn selection_ignores_blank_requests() {
    let keys = vec![("deepseek".to_string(), "d".to_string()), ("gemini".to_string(), "g".to_string())];
    assert_eq!(select_provider(Some("  deepseek  "), &keys).unwrap().0, "deepseek");
    assert_eq!(select_provider(Some("   "), &keys).unwrap().0, "gemini");
    assert_eq!(select_provider(None, &[]), None);
}

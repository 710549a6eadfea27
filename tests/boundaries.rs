use cheek_ai::boundaries::{ends_with_sentence_punct, extract_json, has_sentence_end_punctuation, is_ambiguous_boundary, is_short_title_like};

#[test]
fn ambiguous_boundaries() {
    assert!(is_ambiguous_boundary("He went to", "the store."));
    assert!(is_ambiguous_boundary("See e.g.", "The next."));
    assert!(is_ambiguous_boundary("Written by J.", "Smith later."));
    assert!(is_ambiguous_boundary("It ended.", "and then more."));
    assert!(is_ambiguous_boundary("He said \"go.", "Now\" she replied."));
    assert!(is_ambiguous_boundary("A note (see below.", "Next."));
    assert!(!is_ambiguous_boundary("It ended.", "Then more."));
    assert!(!is_ambiguous_boundary("这是第一句。", "这是第二句。"));
    assert!(!is_ambiguous_boundary("  ", "x"));
}

#[test]
fn sentence_punctuation() {
    assert!(ends_with_sentence_punct("Done…  "));
    assert!(!ends_with_sentence_punct("Done,"));
    assert!(!ends_with_sentence_punct("   "));
    assert!(has_sentence_end_punctuation("a.b"));
    assert!(!has_sentence_end_punctuation("heading"));
    assert!(is_short_title_like("  My Title  "));
    assert!(!is_short_title_like("A sentence."));
    assert!(!is_short_title_like("abcdefghij klmnopqrstu"));
    assert!(is_short_title_like(""));
}

#[test]
fn json_extraction() {
    assert_eq!(extract_json("Sure! {\"a\": {\"b\": 1}} hope it helps"), Some("{\"a\": {\"b\": 1}}".to_string()));
    assert_eq!(extract_json("{}{}"), Some("{}".to_string()));
    assert_eq!(extract_json("x {\"s\": \"a}b\\\"}\"} y"), Some("{\"s\": \"a}b\\\"}\"}".to_string()));
    assert_eq!(extract_json("  no json here "), None);
    assert_eq!(extract_json("} {"), None);
    assert_eq!(extract_json("{\"open\": 1"), None);
}

use cheek_ai::language::{detect_language_simple, estimate_tokens, is_cjk_language};
use cheek_ai::paragraphs::build_paragraph_blocks;

#[test]
fn test_build_paragraph_blocks() {
    let text = "First paragraph.\n\nSecond paragraph.";
    let blocks = build_paragraph_blocks(text);
    assert_eq!(blocks.len(), 2);
}

#[test]
fn paragraphs_split_at_blank_lines() {
    let text = "First paragraph.\n\nSecond paragraph.";
    let blocks = build_paragraph_blocks(text);
    assert_eq!(blocks.len(), 2);
    assert_eq!(blocks[0].text, "First paragraph.");
    assert_eq!(blocks[1].text, "Second paragraph.");
    assert_eq!(blocks[1].start, 18);
    assert_eq!(blocks[1].end, text.len() as i32);
}

#[test]
fn paragraph_offsets_are_exact() {
    let text = "  这是第一段测试文本。\n \t\n这是第二段测试文本。\nsame paragraph\n\n\n  last  ";
    let blocks = build_paragraph_blocks(text);
    assert_eq!(blocks.len(), 3);
    for (i, b) in blocks.iter().enumerate() {
        assert_eq!(b.index, i as i32);
        assert_eq!(b.label, "body");
        assert_eq!(&text[b.start as usize..b.end as usize], b.text);
    }
    assert_eq!(blocks[1].text, "这是第二段测试文本。\nsame paragraph");
    assert_eq!(blocks[2].text, "last");
}

#[test]
fn paragraph_edge_cases() {
    assert!(build_paragraph_blocks("").is_empty());
    assert!(build_paragraph_blocks(" \n\n ").is_empty());
    assert!(build_paragraph_blocks(" ").is_empty());
    let one = build_paragraph_blocks("single line\nsecond line");
    assert_eq!(one.len(), 1);
}

#[test]
fn language_tags() {
    assert!(is_cjk_language(" ZH-cn"));
    assert!(is_cjk_language("ja"));
    assert!(is_cjk_language("Ko"));
    assert!(!is_cjk_language("en"));
    assert!(!is_cjk_language("z"));
    assert_eq!(detect_language_simple("这是中文 text"), "zh");
    assert_eq!(detect_language_simple("mostly english 中"), "en");
    assert_eq!(detect_language_simple("   "), "en");
}

#[test]
fn test_estimate_tokens() {
    assert_eq!(estimate_tokens("Hello World"), 2);
    assert_eq!(estimate_tokens("你好世界"), 4);
    assert_eq!(estimate_tokens("Hello 你好"), 3);
}

#[test]
fn estimate_tokens_edges() {
    assert_eq!(estimate_tokens(""), 1);
    assert_eq!(estimate_tokens("a_b-c"), 2);
}

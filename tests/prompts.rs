use cheek_ai::blocks::TextBlock;
use cheek_ai::catalog::DocumentProfile;
use cheek_ai::prompts::{build_segment_context, build_segment_user_prompt, enrich_llm_call_error, format_doc_profile, truncate_context, SegmentContext};

fn block(index: i32, text: &str) -> TextBlock {
    TextBlock {
        index,
        label: "body".to_string(),
        need_detect: true,
        merge_with_prev: false,
        start: 0,
        end: 0,
        text: text.to_string(),
        sentence_count: None,
    }
}

#[test]
fn context_takes_neighbours() {
    let blocks = vec![block(0, "zero"), block(1, "one"), block(2, &"长".repeat(700))];
    let ctx = build_segment_context(&blocks[1], &blocks);
    assert_eq!(ctx.prev, Some("zero".to_string()));
    assert_eq!(ctx.next.as_ref().map(|s| s.chars().count()), Some(600));
    let first = build_segment_context(&blocks[0], &blocks);
    assert_eq!(first.prev, None);
    let shuffled = vec![block(5, "five"), block(4, "four"), block(6, "six")];
    let mid = build_segment_context(&shuffled[0], &shuffled);
    assert_eq!(mid.prev, Some("four".to_string()));
    assert_eq!(mid.next, Some("six".to_string()));
    assert_eq!(truncate_context("abcdef", 3), "abc");
}

#[test]
fn profile_header_and_prompt() {
    let profile = DocumentProfile {
        category: "工学".to_string(),
        summary: "关于软件".to_string(),
        discipline: Some(" 软件工程 ".to_string()),
        subfield: Some("  ".to_string()),
        paper_type: None,
        conventions: vec!["a".to_string(), " ".to_string(), "b".to_string()],
        validity: "valid".to_string(),
    };
    let header = format_doc_profile(&profile);
    assert_eq!(header, "文档概况:\n- 学科门类: 工学\n- 一级学科: 软件工程\n- 一句话摘要: 关于软件\n- 写作约定:\n  - a\n  - b\n");
    let ctx = SegmentContext { prev: Some("前文".to_string()), next: None };
    let prompt = build_segment_user_prompt(" 本文 ", Some(&ctx), None);
    assert_eq!(
        prompt,
        "上下文（仅供参考，不进行判定）：\n[上一段]\n前文\n\n[本段]\n本文\n\n请只对[本段]输出JSON结果，勿把上下文当作判定对象。"
    );
    let with_profile = build_segment_user_prompt("x", None, Some(&profile));
    assert!(with_profile.starts_with(&format!("{}\n", header)));
}

#[test]
fn unauthorized_errors_get_a_hint() {
    assert_eq!(enrich_llm_call_error("API error: 401 bad"), "API error: 401 bad（请检查 Token/API Key 是否正确或已过期）");
    assert_eq!(enrich_llm_call_error("timeout"), "timeout");
}

use cheek_ai::blocks::TextBlock;
use cheek_ai::filter::{
    category_from_label, classify_by_rules, filter_paragraphs, is_noise_pattern, is_reference_pattern, is_title_pattern,
    is_toc_pattern, uncertain_paragraphs, ParagraphCategory, ParagraphClassification,
};

fn block(index: i32, text: &str) -> TextBlock {
    TextBlock {
        index,
        label: "body".to_string(),
        need_detect: true,
        merge_with_prev: false,
        start: 0,
        end: text.len() as i32,
        text: text.to_string(),
        sentence_count: None,
    }
}

#[test]
fn test_is_title_pattern() {
    assert!(is_title_pattern("第一章 绪论"));
    assert!(is_title_pattern("1.1 研究背景"));
    assert!(is_title_pattern("Chapter 1 Introduction"));
    assert!(is_title_pattern("摘要"));
    assert!(!is_title_pattern("这是一段正文内容，包含完整的句子。"));
}

#[test]
fn test_is_toc_pattern() {
    assert!(is_toc_pattern("目录"));
    assert!(is_toc_pattern("Contents"));
    assert!(is_toc_pattern("1.1 Introduction.....5"));
    assert!(is_toc_pattern("第一章 绪论 --- 1"));
    assert!(!is_toc_pattern("这是正文内容。"));
}

#[test]
fn test_is_reference_pattern() {
    assert!(is_reference_pattern("参考文献"));
    assert!(is_reference_pattern("[1] Smith, J. (2020). Title. Journal."));
    assert!(is_reference_pattern("[2] 张三. 论文标题[J]. 期刊, 2020."));
    assert!(!is_reference_pattern("这是正文内容。"));
}

#[test]
fn test_classify_by_rules() {
    let result = classify_by_rules("第一章 绪论", 0);
    assert_eq!(result.unwrap().category, ParagraphCategory::Title);
    let long_text = "这是一段很长的正文内容，包含了完整的句子和标点符号。这段文字足够长，可以被识别为正文内容。这是第三句话，用来确保文本长度超过阈值。这是第四句话，继续增加长度，让它超过一百个字符的限制，从而满足正文的规则要求。";
    assert_eq!(classify_by_rules(long_text, 1).unwrap().category, ParagraphCategory::Body);
    assert_eq!(classify_by_rules("一些不确定的内容", 2).unwrap().category, ParagraphCategory::Title);
    assert!(classify_by_rules("some words here, and more words there, still going", 3).is_none());
}

#[test]
fn noise_patterns() {
    assert!(is_noise_pattern("图 3 实验结果"));
    assert!(is_noise_pattern("12345 678"));
    assert!(is_noise_pattern("   "));
    assert!(is_noise_pattern("--- *** ---"));
    assert!(!is_noise_pattern("A normal sentence with words."));
}

#[test]
fn rule_notes() {
    let r = classify_by_rules("目录", 4).unwrap();
    assert_eq!(r.index, 4);
    assert_eq!(r.category, ParagraphCategory::Toc);
    assert_eq!(r.confidence, 950_000);
    assert_eq!(r.reason, "toc_pattern");
    assert_eq!(category_from_label("reference"), ParagraphCategory::Reference);
    assert_eq!(category_from_label("weird"), ParagraphCategory::Body);
}

#[test]
fn toc_and_references_are_filtered() {
    let body = "This is a long body paragraph that keeps going with enough words to pass the length rule of the filter, and it ends properly.";
    let blocks = vec![
        block(0, "目录"),
        block(1, "1.1 Intro.....5"),
        block(2, "References"),
        block(3, "[1] Smith, J. (2020) Title. doi:10.1/abc"),
        block(4, body),
    ];
    assert!(uncertain_paragraphs(&blocks).is_empty());
    let (kept, summary) = filter_paragraphs(&blocks, None);
    assert_eq!(kept.len(), 1);
    assert_eq!(kept[0].index, 4);
    assert_eq!(summary.filtered_by_rule, 4);
    assert_eq!(summary.body_count, 1);
    assert_eq!(summary.total_paragraphs, 5);
    assert_eq!(summary.classifications.len(), 5);
}

#[test]
fn uncertain_paragraphs_follow_the_remote_answer() {
    let blocks = vec![
        block(0, "some words here, and more words there, still going"),
        block(1, "more words here, also not so short, with a comma"),
        block(2, "and more, plus some other words after that one"),
    ];
    let unsure = uncertain_paragraphs(&blocks);
    assert_eq!(unsure.len(), 3);
    let llm = vec![ParagraphClassification { index: 1, category: ParagraphCategory::Auxiliary, confidence: 800_000, reason: "llm".to_string() }];
    let (kept, summary) = filter_paragraphs(&blocks, Some(&llm));
    assert_eq!(kept.iter().map(|b| b.index).collect::<Vec<_>>(), vec![0, 2]);
    assert_eq!(summary.filtered_by_llm, 1);
    assert_eq!(summary.classifications[0].reason, "llm_missing_default");
    let (all, fallback) = filter_paragraphs(&blocks, None);
    assert_eq!(all.len(), 3);
    assert_eq!(fallback.classifications[2].reason, "llm_fallback");
}

#[test]
fn filter_keeps_index_order() {
    let body = "This is a long body paragraph that keeps going with enough words to pass the length rule of the filter, and it ends properly.";
    let blocks = vec![block(2, body), block(5, "目录"), block(9, body)];
    let (kept, summary) = filter_paragraphs(&blocks, None);
    assert_eq!(kept.iter().map(|b| b.index).collect::<Vec<_>>(), vec![2, 9]);
    assert_eq!(summary.classifications.iter().map(|c| c.index).collect::<Vec<_>>(), vec![2, 5, 9]);
}

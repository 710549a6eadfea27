use cheek_ai::blocks::TextBlock;
use cheek_ai::paragraphs::build_paragraph_blocks;
use cheek_ai::sentences::split_sentences_advanced;
use cheek_ai::spans::{aggregate_sentence_spans_to_blocks_with_breaks, collect_paragraph_spans, SentenceSpan};
use cheek_ai::text::slice_by_bytes;

fn local_spans(text: &str, paragraphs: &[TextBlock]) -> Vec<Vec<SentenceSpan>> {
    paragraphs
        .iter()
        .map(|p| {
            let own = slice_by_bytes(text, p.start, p.end);
            split_sentences_advanced(&own).into_iter().map(|s| SentenceSpan { start: s.start, end: s.end }).collect()
        })
        .collect()
}

#[test]
fn test_sentence_smart_in_paragraphs_does_not_cross_boundary() {
    let text = "标题\n\n这是第一段。这里还有一句。\n\n目录.....1\n\n第二段开始。";
    let all = build_paragraph_blocks(text);
    assert!(all.len() >= 4);
    let paragraphs = vec![all[1].clone(), all[3].clone()];
    let local = local_spans(text, &paragraphs);
    let (spans, breaks) = collect_paragraph_spans(text, &paragraphs, &local);
    assert_eq!(spans.len(), 3);
    assert!(breaks.contains(&1));
    let blocks = aggregate_sentence_spans_to_blocks_with_breaks(text, &spans, 200, 300, Some(&breaks));
    assert!(!blocks.is_empty());
    for b in blocks {
        let block_text = slice_by_bytes(text, b.start, b.end);
        assert!(!block_text.contains("目录"));
    }
}

#[test]
fn adjacent_paragraphs_have_no_hard_break() {
    let text = "第一段。\n\n第二段。";
    let paragraphs = build_paragraph_blocks(text);
    let local = local_spans(text, &paragraphs);
    let (spans, breaks) = collect_paragraph_spans(text, &paragraphs, &local);
    assert_eq!(spans, vec![SentenceSpan { start: 0, end: 12 }, SentenceSpan { start: 14, end: 26 }]);
    assert!(breaks.is_empty());
    let bad = vec![vec![SentenceSpan { start: 5, end: 2 }], vec![]];
    let (none, _) = collect_paragraph_spans(text, &paragraphs, &bad);
    assert!(none.is_empty());
}

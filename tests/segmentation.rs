use cheek_ai::blocks::{build_sentence_blocks, ParagraphBlock, SentenceBlock, TextBlock};
use cheek_ai::sentences::{split_sentences, split_sentences_advanced};
use cheek_ai::spans::{aggregate_sentence_spans_to_blocks, aggregate_sentence_spans_to_blocks_with_breaks, merge_spans_by_indices, SentenceSpan};
use cheek_ai::text::{char_offset_to_utf8_byte_index, head_chars, normalize_offsets_to_utf8_bytes, safe_preview, slice_by_bytes, tail_chars, usize_to_i32};
use std::collections::HashSet;

#[test]
fn test_build_sentence_blocks_uses_char_count_for_cjk() {
    let sentence = format!("{}.", "\u{4e00}".repeat(25));
    let text = sentence.repeat(10);
    let blocks = build_sentence_blocks(&text, 50, 200, 300);
    assert_eq!(blocks.len(), 2);
    assert_eq!(blocks[0].sentence_count, Some(7));
    assert_eq!(blocks[1].sentence_count, Some(3));
}

#[test]
fn test_merge_spans_by_indices_chain() {
    let spans = vec![
        SentenceSpan { start: 0, end: 10 },
        SentenceSpan { start: 10, end: 20 },
        SentenceSpan { start: 20, end: 30 },
        SentenceSpan { start: 30, end: 40 },
    ];

    let merged = merge_spans_by_indices(&spans, &[1, 2]);
    assert_eq!(merged.len(), 2);
    assert_eq!(merged[0].start, 0);
    assert_eq!(merged[0].end, 10);
    assert_eq!(merged[1].start, 10);
    assert_eq!(merged[1].end, 40);
}

#[test]
fn merge_without_marks_keeps_spans() {
    let spans = vec![SentenceSpan { start: 0, end: 5 }, SentenceSpan { start: 5, end: 9 }];
    let merged = merge_spans_by_indices(&spans, &[7]);
    assert_eq!(merged, spans);
    let all = merge_spans_by_indices(&spans, &[0, 1]);
    assert_eq!(all, vec![SentenceSpan { start: 0, end: 9 }]);
    assert!(merge_spans_by_indices(&[], &[0]).is_empty());
}

#[test]
fn split_sentences_offsets_are_byte_exact() {
    let text = "这是第一句。这是第二句！这是第三句？";
    let s = split_sentences_advanced(text);
    assert_eq!(s.len(), 3);
    assert_eq!(s[0].text, "这是第一句。");
    assert_eq!((s[0].start, s[0].end), (0, 18));
    assert_eq!((s[2].start, s[2].end), (36, 54));
    for x in &s {
        assert_eq!(&text[x.start as usize..x.end as usize], x.text);
    }
}

#[test]
fn split_sentences_keeps_quotes_decimals_and_blanks() {
    let s = split_sentences_advanced("Pi is 3.14 today. He said \"Stop. Now.\" Then left.  \tEnd");
    let texts: Vec<&str> = s.iter().map(|x| x.text.as_str()).collect();
    assert_eq!(texts, vec!["Pi is 3.14 today.", "He said \"Stop. Now.\" Then left.", "End"]);
    assert_eq!(s[1].start, 18);
    assert_eq!(s[2].start, 52);
    assert_eq!(s[2].end, 55);
    assert!(split_sentences_advanced("").is_empty());
    assert!(split_sentences_advanced("  \n ").is_empty());
}

#[test]
fn sentence_blocks_are_exact_slices() {
    let text = "First one. Second one!  Third?\nFourth part";
    let blocks = build_sentence_blocks(text, 0, 15, 25);
    assert!(!blocks.is_empty());
    for (i, b) in blocks.iter().enumerate() {
        assert_eq!(b.index, i as i32);
        assert_eq!(b.label, "sentence_block");
        assert_eq!(&text[b.start as usize..b.end as usize], b.text);
    }
    assert_eq!(blocks[0].start, 0);
    assert_eq!(blocks.last().unwrap().end, text.len() as i32);
}

#[test]
fn long_sentence_stands_alone() {
    let text = "Short. This sentence is clearly longer than ten characters. End.";
    let blocks = build_sentence_blocks(text, 0, 100, 10);
    assert_eq!(blocks.len(), 3);
    assert_eq!(blocks[1].sentence_count, Some(1));
    assert_eq!(blocks[1].text, "This sentence is clearly longer than ten characters. ");
}

#[test]
fn hard_breaks_are_never_crossed() {
    let text = "aaaa. bbbb. cccc. dddd.";
    let spans = vec![
        SentenceSpan { start: 0, end: 6 },
        SentenceSpan { start: 6, end: 12 },
        SentenceSpan { start: 12, end: 18 },
        SentenceSpan { start: 18, end: 23 },
    ];
    let plain = aggregate_sentence_spans_to_blocks(text, &spans, 100, 200);
    assert_eq!(plain.len(), 1);
    assert_eq!(plain[0].text, text);
    assert_eq!(plain[0].sentence_count, Some(4));
    let mut breaks = HashSet::new();
    breaks.insert(1usize);
    let blocks = aggregate_sentence_spans_to_blocks_with_breaks(text, &spans, 100, 200, Some(&breaks));
    assert_eq!(blocks.len(), 2);
    assert_eq!((blocks[0].start, blocks[0].end), (0, 12));
    assert_eq!((blocks[1].start, blocks[1].end), (12, 23));
    assert_eq!(blocks[1].index, 1);
}

#[test]
fn empty_spans_are_skipped() {
    let text = "abc def";
    let spans = vec![SentenceSpan { start: 0, end: 3 }, SentenceSpan { start: 3, end: 3 }, SentenceSpan { start: 3, end: 7 }];
    let blocks = aggregate_sentence_spans_to_blocks(text, &spans, 100, 200);
    assert_eq!(blocks.len(), 1);
    assert_eq!(blocks[0].sentence_count, Some(2));
    assert!(aggregate_sentence_spans_to_blocks(text, &[], 10, 20).is_empty());
}

#[test]
fn byte_slicing_snaps_to_char_boundaries() {
    let text = "a中b";
    assert_eq!(slice_by_bytes(text, 0, 4), "a中");
    assert_eq!(slice_by_bytes(text, 1, 3), "");
    assert_eq!(slice_by_bytes(text, 2, 5), "b");
    assert_eq!(slice_by_bytes(text, -1, 5), "");
    assert_eq!(slice_by_bytes(text, 3, 99), "b");
}

#[test]
fn safe_preview_handles_multibyte() {
    let text = "中".repeat(200);
    let p = safe_preview(&text, 0, 600, 100);
    assert_eq!(p.chars().count(), 33);
    assert_eq!(p.len(), 99);
    assert_eq!(safe_preview(&text, 1, 10, 100), "中中");
    assert_eq!(safe_preview(&text, 0, 10, 0), "");
    assert_eq!(safe_preview("abc", 5, 9, 3), "");
}

#[test]
fn char_offsets_convert_to_bytes() {
    let text = "中a文";
    assert_eq!(char_offset_to_utf8_byte_index(text, 0), Some(0));
    assert_eq!(char_offset_to_utf8_byte_index(text, 2), Some(4));
    assert_eq!(char_offset_to_utf8_byte_index(text, 3), Some(7));
    assert_eq!(char_offset_to_utf8_byte_index(text, 4), None);
    assert_eq!(normalize_offsets_to_utf8_bytes(text, 0, 3), Some((0, 3)));
    assert_eq!(normalize_offsets_to_utf8_bytes(text, 1, 2), Some((3, 4)));
    assert_eq!(normalize_offsets_to_utf8_bytes(text, 2, 9), None);
    assert_eq!(normalize_offsets_to_utf8_bytes(text, 2, 1), None);
    assert_eq!(usize_to_i32(5), Some(5));
    assert_eq!(usize_to_i32(usize::MAX), None);
}

#[test]
fn head_and_tail_chars() {
    assert_eq!(head_chars("中文abc", 3), "中文a");
    assert_eq!(tail_chars("中文abc", 4), "文abc");
    assert_eq!(head_chars("ab", 0), "");
    assert_eq!(tail_chars("ab", 10), "ab");
}

#[test]
fn span_ranges_and_service_blocks() {
    assert_eq!(SentenceSpan { start: 2, end: 5 }.as_usize(), Some((2, 5)));
    assert_eq!(SentenceSpan { start: 5, end: 2 }.as_usize(), None);
    assert_eq!(SentenceSpan { start: -1, end: 2 }.as_usize(), None);
    let s = SentenceBlock {
        index: 1,
        label: "sentence_block".to_string(),
        need_detect: true,
        merge_with_prev: false,
        start: 3,
        end: 9,
        text: "abcdef".to_string(),
        sentence_count: 2,
    };
    let t = TextBlock::from_sentence_block(s);
    assert_eq!((t.index, t.start, t.end, t.sentence_count), (1, 3, 9, Some(2)));
    let p = ParagraphBlock {
        index: 0,
        label: "body".to_string(),
        need_detect: true,
        merge_with_prev: false,
        start: 0,
        end: 3,
        text: "abc".to_string(),
        paragraph_count: 4,
    };
    assert_eq!(TextBlock::from_paragraph_block(p).sentence_count, Some(4));
}

#[test]
fn test_split_sentences() {
    let text = "这是第一句。这是第二句！这是第三句？";
    let sentences = split_sentences(text);
    assert_eq!(sentences.len(), 1);
}

#[test]
fn split_sentences_at_marks_followed_by_space() {
    assert_eq!(split_sentences("One! Two?  Three. four"), vec!["One!".to_string(), "Two?".to_string(), "Three. four".to_string()]);
    assert_eq!(split_sentences("好。 \n坏！"), vec!["好。".to_string(), "坏！".to_string()]);
    assert!(split_sentences("").is_empty());
}

#[test]
fn whitespace_after_a_sentence_end_stays_with_it() {
    let text = "First.\n  Second!\tThird";
    let s = split_sentences_advanced(text);
    assert_eq!(s.len(), 3);
    assert_eq!((s[0].start, s[0].end), (0, 9));
    assert_eq!(s[1].start, 9);
    assert_eq!(s[1].text, "Second!");
    assert_eq!((s[2].start, s[2].end), (17, 22));
}

use cheek_ai::spans::{accepted_merges, batch_bounds, boundary_candidates, merge_spans_by_indices, BoundaryPair, SentenceSpan};
use std::collections::HashSet;

#[test]
fn doubtful_boundaries_become_candidates() {
    let text = "See e.g. The list. It ended. Then more.";
    let spans = vec![
        SentenceSpan { start: 0, end: 9 },
        SentenceSpan { start: 9, end: 19 },
        SentenceSpan { start: 19, end: 29 },
        SentenceSpan { start: 29, end: 39 },
    ];
    let c = boundary_candidates(text, &spans, None);
    assert_eq!(c.len(), 1);
    assert_eq!(c[0].index, 0);
    assert_eq!(c[0].left, "See e.g.");
    assert_eq!(c[0].right, "The list.");
    let mut blocked = HashSet::new();
    blocked.insert(0usize);
    assert!(boundary_candidates(text, &spans, Some(&blocked)).is_empty());
    assert!(boundary_candidates(text, &spans[..1], None).is_empty());
}

#[test]
fn snippets_are_cut_to_240_characters() {
    let left = format!("{} e.g.", "x".repeat(300));
    let text = format!("{}Next one.", left);
    let spans = vec![SentenceSpan { start: 0, end: left.len() as i32 }, SentenceSpan { start: left.len() as i32, end: text.len() as i32 }];
    let c = boundary_candidates(&text, &spans, None);
    assert_eq!(c.len(), 1);
    assert_eq!(c[0].left.chars().count(), 240);
    assert!(c[0].left.ends_with("e.g."));
}

#[test]
fn batches_of_eighty_at_most_three_calls() {
    assert_eq!(batch_bounds(200, 0), Some((0, 80)));
    assert_eq!(batch_bounds(200, 2), Some((160, 200)));
    assert_eq!(batch_bounds(300, 3), None);
    assert_eq!(batch_bounds(80, 1), None);
    assert_eq!(batch_bounds(0, 0), None);
}

#[test]
fn only_sent_boundaries_are_merged() {
    let batch = vec![
        BoundaryPair { index: 2, left: "a".to_string(), right: "b".to_string() },
        BoundaryPair { index: 5, left: "c".to_string(), right: "d".to_string() },
    ];
    assert_eq!(accepted_merges(&batch, &[5, 3, 2]), vec![5, 2]);
    let spans: Vec<SentenceSpan> = (0..4).map(|i| SentenceSpan { start: i * 10, end: i * 10 + 10 }).collect();
    let merged = merge_spans_by_indices(&spans, &accepted_merges(&batch, &[2, 9]));
    assert_eq!(merged.len(), 3);
    assert_eq!(merged[2], SentenceSpan { start: 20, end: 40 });
}

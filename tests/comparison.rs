use cheek_ai::comparison::{compare_dual_mode_results, ModeSegment};
use cheek_ai::text::preview;

fn seg(id: i32, start: i32, end: i32, p: i64) -> ModeSegment {
    ModeSegment { chunk_id: id, start, end, probability: p }
}

#[test]
fn test_compare_dual_mode_results_cjk_preview_does_not_panic() {
    let text = "中".repeat(200);
    let len = text.len() as i32;
    let para = vec![seg(0, 0, len, 900_000)];
    let sent = vec![seg(0, 0, len, 100_000)];
    let r = compare_dual_mode_results(&para, &sent, &text, 200_000);
    assert_eq!(r.divergent_regions.len(), 1);
    let preview = &r.divergent_regions[0].text_preview;
    assert!(preview.ends_with("..."));
    assert_eq!(preview.trim_end_matches("...").chars().count(), 33);
}

#[test]
fn disagreeing_modes_have_no_consistency() {
    let text = "a".repeat(300);
    let para = vec![seg(0, 0, 100, 100_000), seg(1, 100, 300, 100_000)];
    let sent = vec![seg(0, 0, 100, 900_000), seg(1, 100, 300, 900_000)];
    let r = compare_dual_mode_results(&para, &sent, &text, 200_000);
    assert_eq!(r.compared, 2);
    assert_eq!(r.consistent, 0);
    assert_eq!(r.divergent_regions.len(), 2);
    assert_eq!(r.divergent_regions[0].probability_diff, 800_000);
    assert_eq!(r.divergent_regions[0].text_preview, "a".repeat(100));
    assert_eq!(r.divergent_regions[1].text_preview, format!("{}...", "a".repeat(100)));
}

#[test]
fn small_overlaps_are_not_compared() {
    let text = "b".repeat(100);
    let para = vec![seg(0, 0, 100, 600_000)];
    let sent = vec![seg(0, 0, 40, 700_000), seg(1, 40, 100, 550_000)];
    let r = compare_dual_mode_results(&para, &sent, &text, 200_000);
    assert_eq!(r.compared, 1);
    assert_eq!(r.consistent, 1);
    assert!(r.divergent_regions.is_empty());
    let empty = compare_dual_mode_results(&[], &sent, &text, 200_000);
    assert_eq!((empty.compared, empty.consistent), (0, 0));
}

#[test]
fn previews_are_one_line() {
    assert_eq!(preview("ab\ncd", 10), "ab cd");
    assert_eq!(preview("中文内容很长", 2), "中文...");
    assert_eq!(preview("", 0), "");
}

use cheek_ai::blocks::TextBlock;
use cheek_ai::digest::build_document_profile_input;

fn block(index: i32, text: &str) -> TextBlock {
    TextBlock {
        index,
        label: "body".to_string(),
        need_detect: true,
        merge_with_prev: false,
        start: 0,
        end: 0,
        text: text.to_string(),
        sentence_count: None,
    }
}

fn long_text() -> String {
    "w ".repeat(7000)
}

#[test]
fn short_documents_are_sent_whole() {
    assert_eq!(build_document_profile_input("abc def", &[]), "abc def");
}

#[test]
fn long_documents_are_sampled() {
    let blocks: Vec<TextBlock> = (0..20).map(|i| block(i, &format!("p{}", i))).collect();
    let digest = build_document_profile_input(&long_text(), &blocks);
    assert_eq!(digest, "p0\n\np1\n\np2\n\np3\n\np6\n\np9\n\np12\n\np15\n\np18\n\np19");
    let few: Vec<TextBlock> = (0..5).map(|i| block(i, &format!("q{}", i))).collect();
    assert_eq!(build_document_profile_input(&long_text(), &few), "q0\n\nq1\n\nq2\n\nq3\n\nq4");
}

#[test]
fn the_token_budget_is_respected() {
    let big = "x ".repeat(4000);
    let blocks = vec![block(0, &big), block(1, &big), block(2, "tail")];
    assert_eq!(build_document_profile_input(&long_text(), &blocks), big);
    let huge = vec![block(0, &long_text())];
    let fallback = build_document_profile_input(&long_text(), &huge);
    assert_eq!(fallback.chars().count(), 4000);
}

use cheek_ai::normalize::normalize_punctuation;

#[test]
fn test_normalize_punctuation() {
    let text = "Hello\u{201c}World\u{201d}";
    assert_eq!(normalize_punctuation(text), "Hello\"World\"");
}

#[test]
fn normalization_of_spaces_and_lines() {
    assert_eq!(normalize_punctuation(""), "");
    assert_eq!(normalize_punctuation("  a \t\u{3000} b  \r\n  c\u{2014}d \rlast\u{a0} "), "a b\nc-d\nlast");
    assert_eq!(normalize_punctuation("it\u{2019}s\r\r\nnext"), "it's\n\nnext");
    assert_eq!(normalize_punctuation("\n\n x \n\n"), "x");
}

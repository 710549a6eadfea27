use cheek_ai::routing::{retry_backoff_ms, sentence_route, SentenceRoute};

#[test]
fn sentence_routes_by_length() {
    assert_eq!(sentence_route(9), SentenceRoute::Skip);
    assert_eq!(sentence_route(10), SentenceRoute::LocalOnly);
    assert_eq!(sentence_route(49), SentenceRoute::LocalOnly);
    assert_eq!(sentence_route(50), SentenceRoute::RemoteChat);
    assert_eq!(sentence_route(300).model(), Some("deepseek-chat"));
    assert_eq!(sentence_route(301).model(), Some("deepseek-reasoner"));
    assert_eq!(SentenceRoute::LocalOnly.model(), None);
}

#[test]
fn retries_back_off_linearly() {
    assert_eq!(retry_backoff_ms(1), Some(400));
    assert_eq!(retry_backoff_ms(2), Some(800));
    assert_eq!(retry_backoff_ms(3), None);
    assert_eq!(retry_backoff_ms(0), None);
}

use silent_crawler::response::{is_success, screen_response, FetchOutcome, SkipReason};

#[test]
fn success_is_a_status_from_200_to_299() {
    assert!(!is_success(0));
    assert!(!is_success(199));
    assert!(is_success(200));
    assert!(is_success(204));
    assert!(is_success(299));
    assert!(!is_success(300));
    assert!(!is_success(404));
    assert!(!is_success(500));
    assert!(!is_success(u16::MAX));
}

#[test]
fn a_successful_html_response_is_read() {
    assert_eq!(screen_response(200, Some("text/html")), None);
    assert_eq!(screen_response(200, Some("text/html; charset=utf-8")), None);
    assert_eq!(screen_response(206, Some("application/xhtml+xml, text/html")), None);
}

#[test]
fn a_failed_status_is_skipped_first() {
    assert_eq!(screen_response(404, Some("text/html")), Some(SkipReason::Status));
    assert_eq!(screen_response(301, Some("text/html")), Some(SkipReason::Status));
    assert_eq!(screen_response(500, None), Some(SkipReason::Status));
    assert_eq!(screen_response(199, Some("image/png")), Some(SkipReason::Status));
}

#[test]
fn another_content_type_is_skipped() {
    assert_eq!(screen_response(200, None), Some(SkipReason::ContentType));
    assert_eq!(screen_response(200, Some("")), Some(SkipReason::ContentType));
    assert_eq!(screen_response(200, Some("application/json")), Some(SkipReason::ContentType));
    assert_eq!(screen_response(200, Some("text/htm")), Some(SkipReason::ContentType));
    assert_eq!(screen_response(200, Some("TEXT/HTML")), Some(SkipReason::ContentType));
}

#[test]
fn an_outcome_has_a_body_only_when_fetched() {
    assert_eq!(FetchOutcome::Fetched("<html></html>".to_string()).body(), Some("<html></html>"));
    assert_eq!(FetchOutcome::Fetched(String::new()).body(), Some(""));
    assert_eq!(FetchOutcome::Skipped(SkipReason::Transport).body(), None);
    assert_eq!(FetchOutcome::Skipped(SkipReason::Status).body(), None);
    assert_eq!(FetchOutcome::Skipped(SkipReason::ContentType).body(), None);
    assert_eq!(FetchOutcome::Skipped(SkipReason::Body).body(), None);
}

//! Pieces of a streamed answer.
use spark_server::chat_stream::state::trim_until_content_started;

#[test]
fn trim_until_content_started_strips_leading_newlines_on_first_token() {
    let mut started = false;
    let out = trim_until_content_started("\n\nLet's".to_string(), &mut started);
    assert_eq!(out, "Let's");
    assert!(started, "first non-whitespace delta arms content_started");
}

#[test]
fn trim_until_content_started_holds_when_chunk_is_pure_whitespace() {
    let mut started = false;
    let out = trim_until_content_started("\n".to_string(), &mut started);
    assert_eq!(out, "");
    assert!(!started, "pure-whitespace delta keeps the trim active for the next chunk");
}

#[test]
fn trim_until_content_started_passes_through_after_first_content() {
    let mut started = true;
    let out = trim_until_content_started("  spaces preserved".to_string(), &mut started);
    assert_eq!(out, "  spaces preserved");
}

#[test]
fn trim_until_content_started_keeps_interior_whitespace_on_arming_delta() {
    let mut started = false;
    let out = trim_until_content_started("\nLet's\n  more".to_string(), &mut started);
    assert_eq!(out, "Let's\n  more");
    assert!(started);
}

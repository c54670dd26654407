//! What surrounds a handler.
use spark_server::json::Json;
use spark_server::middleware::{
    after_check, apply_rate_headers, deny, extract_identity, is_limited, observability_headers, require_auth,
    Admission, DenialReason, RateDecision, RateWindow,
};
use spark_server::misc::{health, tokenize_source, TokenizeSource, Unsupported};

fn code(body: &Json) -> String {
    body.get("error").unwrap().get("code").unwrap().as_str().unwrap().clone()
}

#[test]
fn only_the_api_is_observed() {
    assert!(observability_headers("/health", Some("id"), 3).is_empty());
    let h = observability_headers("/v1/models", Some("id"), 3);
    assert_eq!(h.len(), 10);
    assert_eq!(h[0], ("x-request-id".to_string(), "id".to_string()));
    assert_eq!(h[1], ("openai-processing-ms".to_string(), "3".to_string()));
    assert_eq!(observability_headers("/v1/models", None, 3).len(), 9);
}

#[test]
fn a_token_is_asked_for_inside_the_api() {
    assert!(matches!(require_auth(false, "/v1/models", None), Admission::Pass));
    assert!(matches!(require_auth(true, "/metrics", None), Admission::Pass));
    match require_auth(true, "/tokenize", Some("Basic abc")) {
        Admission::Refuse(status, body) => {
            assert_eq!(status, 401);
            assert_eq!(code(&body), "missing_api_key");
        }
        _ => panic!("expected a refusal"),
    }
    match require_auth(true, "/v1/models", Some("Bearer  tok-1 \n")) {
        Admission::Check(t) => assert_eq!(t, "tok-1"),
        _ => panic!("expected a token to check"),
    }
    assert!(matches!(after_check(true), Admission::Pass));
    match after_check(false) {
        Admission::Refuse(status, body) => {
            assert_eq!(status, 401);
            assert_eq!(code(&body), "invalid_api_key");
        }
        _ => panic!("expected a refusal"),
    }
}

fn decision(allowed: bool, denied_by: Option<DenialReason>) -> RateDecision {
    RateDecision {
        allowed,
        denied_by,
        retry_after_secs: 7,
        requests: RateWindow { limit: 60, remaining: 0, reset_secs: 7 },
        tokens: RateWindow { limit: 1000, remaining: 10, reset_secs: 1 },
    }
}

#[test]
fn a_denied_request_learns_when_to_come_back() {
    assert!(is_limited("/v1/chat/completions", true));
    assert!(!is_limited("/health", true));
    assert!(!is_limited("/v1/models", false));
    assert!(deny(&decision(true, None)).is_none());
    let d = deny(&decision(false, Some(DenialReason::Requests))).unwrap();
    assert_eq!(d.status, 429);
    assert_eq!(d.headers.last().unwrap(), &("retry-after".to_string(), "7".to_string()));
    let message = d.body.get("error").unwrap().get("message").unwrap().as_str().unwrap().clone();
    assert_eq!(message, "Rate limit exceeded for requests. Retry after 7s.");
    let h = apply_rate_headers(&decision(true, None));
    assert_eq!(h.len(), 6);
    assert_eq!(h[5], ("x-ratelimit-reset-tokens".to_string(), "1s".to_string()));
}

#[test]
fn readiness_is_a_status() {
    assert_eq!(health(true, "m").0, 200);
    assert_eq!(health(true, "m").1.get("model").unwrap().as_str().unwrap(), "m");
    let (status, body) = health(false, "m");
    assert_eq!(status, 503);
    assert_eq!(body.get("status").unwrap().as_str().unwrap(), "loading");
    assert!(body.get("model").is_none());
}

#[test]
fn a_text_goes_before_messages() {
    assert_eq!(tokenize_source(true, true).ok(), Some(TokenizeSource::Prompt));
    assert_eq!(tokenize_source(false, true).ok(), Some(TokenizeSource::Messages));
    assert_eq!(
        tokenize_source(false, false).err().unwrap().message,
        "Either 'prompt' or 'messages' is required"
    );
    assert_eq!(Unsupported::Audio.error().status, 501);
    assert!(Unsupported::Files.error().message.starts_with("File storage API is not supported."));
}

#[test]
fn requests_are_counted_by_token_then_address() {
    assert_eq!(extract_identity(Some("Bearer k "), Some("1.2.3.4"), Some("p")), "k");
    assert_eq!(extract_identity(Some("Basic k"), Some("1.2.3.4"), Some("p")), "1.2.3.4");
    assert_eq!(extract_identity(None, None, Some("p")), "p");
    assert_eq!(extract_identity(None, None, None), "");
}

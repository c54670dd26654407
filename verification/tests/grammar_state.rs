//! Masks and structural tags.
use spark_server::grammar::state::GrammarState;
use spark_server::grammar::tags::{build_structural_tag, build_thinking_wrapped_structural_tag};
use spark_server::json::Json;

#[test]
fn a_fresh_state_allows_every_token() {
    let s = GrammarState::new(70);
    assert_eq!(s.bitmask_data(), &vec![-1, -1, -1]);
    assert!(s.is_token_allowed(0));
    assert!(s.is_token_allowed(69));
    assert!(!s.is_token_allowed(96));
    assert!(GrammarState::new(64).bitmask_data().len() == 2);
}

#[test]
fn forbidden_tokens_fall_to_the_floor() {
    let mut s = GrammarState::new(40);
    assert!(s.fill_bitmask(Some((vec![i32::MIN | 1, 2], true))));
    assert!(s.is_token_allowed(0) && s.is_token_allowed(31) && s.is_token_allowed(33));
    assert!(!s.is_token_allowed(1) && !s.is_token_allowed(32));
    let mut logits = vec![1.0f32; 42];
    s.apply_bitmask_to_logits(&mut logits, f32::NEG_INFINITY);
    assert_eq!(logits[0], 1.0);
    assert_eq!(logits[1], f32::NEG_INFINITY);
    assert_eq!(logits[31], 1.0);
    assert_eq!(logits[32], f32::NEG_INFINITY);
    assert_eq!(logits[33], 1.0);
    assert_eq!(logits[40], 1.0);
    let once = logits.clone();
    s.apply_bitmask_to_logits(&mut logits, f32::NEG_INFINITY);
    assert_eq!(logits, once);
    assert!(!s.fill_bitmask(None));
    assert!(!s.is_token_allowed(1));
    assert!(GrammarState::accept_token(None));
    assert!(!GrammarState::accept_token(Some(false)));
}

fn texts(j: &Json) -> Vec<String> {
    j.as_array().unwrap().iter().map(|t| t.as_str().unwrap().clone()).collect()
}

#[test]
fn an_answer_has_one_thinking_block() {
    let triggers = vec!["<tool_call>".to_string()];
    let tag = build_structural_tag(&triggers, vec![Json::Null], true, false);
    let format = tag.get("format").unwrap();
    assert_eq!(tag.get("type").unwrap().as_str().unwrap(), "structural_tag");
    assert_eq!(format.get("type").unwrap().as_str().unwrap(), "triggered_tags");
    assert_eq!(texts(format.get("triggers").unwrap()), vec!["<tool_call>"]);
    assert_eq!(texts(format.get("excludes").unwrap()), vec!["<think>", "</think>"]);
    assert!(matches!(format.get("at_least_one"), Some(Json::Bool(true))));

    let tag = build_thinking_wrapped_structural_tag(&triggers, vec![], false, true);
    let parts = tag.get("format").unwrap().get("elements").unwrap().as_array().unwrap();
    assert_eq!(parts.len(), 3);
    assert_eq!(texts(parts[0].get("excludes").unwrap()).len(), 7);
    assert_eq!(parts[1].get("value").unwrap().as_str().unwrap(), "</think>");
    assert!(matches!(parts[2].get("stop_after_first"), Some(Json::Bool(true))));
}

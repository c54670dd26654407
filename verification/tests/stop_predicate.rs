//! Stop strings in text that arrives in pieces.
use spark_server::chat_fsm::stop_predicate::{StopOutcome, StopPredicate};

#[test]
fn pass_when_no_stop() {
    let mut p = StopPredicate::new(vec!["</answer>".to_string()]);
    assert_eq!(p.feed("hello "), StopOutcome::Pass);
    assert_eq!(p.feed("world"), StopOutcome::Pass);
}

#[test]
fn fire_mid_delta() {
    let mut p = StopPredicate::new(vec!["STOP".to_string()]);
    assert_eq!(p.feed("hello "), StopOutcome::Pass);
    assert_eq!(
        p.feed("worldSTOPbye"),
        StopOutcome::Fire { safe_prefix: "world".to_string(), matched: "STOP".to_string() }
    );
}

#[test]
fn fire_straddle_across_deltas() {
    let mut p = StopPredicate::new(vec!["STOP".to_string()]);
    assert_eq!(p.feed("hello ST"), StopOutcome::Pass);
    // "ST" has been handed on already, so nothing of this piece is safe.
    assert_eq!(
        p.feed("OPgoodbye"),
        StopOutcome::Fire { safe_prefix: String::new(), matched: "STOP".to_string() }
    );
}

#[test]
fn longest_match_wins() {
    let mut p = StopPredicate::new(vec!["</answer".to_string(), "</answer>".to_string()]);
    match p.feed("foo</answer>") {
        StopOutcome::Fire { matched, .. } => assert_eq!(matched, "</answer>"),
        _ => panic!("expected Fire"),
    }
}

#[test]
fn empty_predicate_always_passes() {
    let mut p = StopPredicate::new(vec![]);
    assert!(p.is_empty());
    assert_eq!(p.feed("hello"), StopOutcome::Pass);
}

#[test]
fn stop_behind_a_wide_character() {
    let mut p = StopPredicate::new(vec!["é!".to_string()]);
    assert_eq!(p.feed("caf"), StopOutcome::Pass);
    assert_eq!(
        p.feed("ü é! rest"),
        StopOutcome::Fire { safe_prefix: "ü ".to_string(), matched: "é!".to_string() }
    );
}

#[test]
fn the_stop_that_stands_first_fires() {
    let mut p = StopPredicate::new(vec!["STOP".to_string(), "LONGER".to_string()]);
    assert_eq!(
        p.feed("aSTOPbLONGER"),
        StopOutcome::Fire { safe_prefix: "a".to_string(), matched: "STOP".to_string() }
    );
}

//! Commands that are not there, and texts that say that something failed.
use spark_server::failures::stall::{
    append_f7_reminder_to_last_user, build_f7_stall_reminder, collect_f7_stall_buckets,
    f28_text_looks_like_error, f29_extract_binary_from_error_line, f29_extract_environment_facts,
    f29_inject_environment_facts, prepend_reminder_to_system, recent_message_is_tool_error,
};
use spark_server::messages::IncomingMessage;
use spark_server::tools::{IncomingFunction, IncomingToolCall};

#[test]
fn binary_from_command_not_found() {
    assert_eq!(
        f29_extract_binary_from_error_line("/bin/sh: 1: cargo: command not found"),
        Some("cargo".to_string())
    );
}

#[test]
fn binary_from_bare_not_found() {
    assert_eq!(f29_extract_binary_from_error_line("npm: not found"), Some("npm".to_string()));
}

#[test]
fn binary_from_bash_format() {
    assert_eq!(
        f29_extract_binary_from_error_line("/bin/bash: line 1: cargo: command not found"),
        Some("cargo".to_string())
    );
}

#[test]
fn binary_no_suffix_returns_none() {
    assert_eq!(f29_extract_binary_from_error_line("just some random text"), None);
}

#[test]
fn binary_too_long_rejected() {
    let line = format!("{}: command not found", "x".repeat(50));
    assert_eq!(f29_extract_binary_from_error_line(&line), None);
}

#[test]
fn binary_with_path_rejected() {
    assert_eq!(f29_extract_binary_from_error_line("/usr/bin/foo: command not found"), None);
}

#[test]
fn binary_accepts_dotted_name() {
    assert_eq!(
        f29_extract_binary_from_error_line("python3.11: command not found"),
        Some("python3.11".to_string())
    );
}

#[test]
fn f28_tool_error_prefix() {
    assert!(f28_text_looks_like_error("[tool error] something went wrong"));
    assert!(f28_text_looks_like_error("Error: bad input"));
}

#[test]
fn f28_exit_code_signature() {
    assert!(f28_text_looks_like_error("Build failed. Exit code 127"));
}

#[test]
fn f28_permission_signature() {
    assert!(f28_text_looks_like_error("Permission denied: /tmp/x"));
    assert!(f28_text_looks_like_error("open EACCES"));
}

#[test]
fn f28_opencode_signature() {
    assert!(f28_text_looks_like_error("TypeError: cannot read property"));
    assert!(f28_text_looks_like_error("ERR_INVALID_ARG_VALUE"));
}

#[test]
fn f28_clean_output_is_not_error() {
    assert!(!f28_text_looks_like_error("OK"));
    assert!(!f28_text_looks_like_error("Build successful"));
    assert!(!f28_text_looks_like_error(""));
}

fn failing() -> Vec<IncomingMessage> {
    vec![
        IncomingMessage::plain("user", "build it".to_string()),
        IncomingMessage::synthetic_tool("sh: 1: cargo: command not found".to_string(), "a".to_string()),
        IncomingMessage::synthetic_tool("sh: 1: cargo: command not found".to_string(), "b".to_string()),
    ]
}

#[test]
fn a_missing_command_becomes_a_fact() {
    let msgs = failing();
    assert!(recent_message_is_tool_error(&msgs));
    let facts = f29_extract_environment_facts(&msgs);
    assert_eq!(facts.len(), 1);
    assert_eq!(facts[0].binary, "cargo");
    assert_eq!(facts[0].observed_count, 2);
}

#[test]
fn facts_are_told_once() {
    let mut msgs = failing();
    let facts = f29_extract_environment_facts(&msgs);
    f29_inject_environment_facts(&mut msgs, &facts);
    assert_eq!(msgs.len(), 4);
    assert_eq!(msgs[0].role, "system");
    assert!(msgs[0].content.text.contains("cargo"));
    let once = msgs[0].content.text.clone();
    f29_inject_environment_facts(&mut msgs, &facts);
    assert_eq!(msgs.len(), 4);
    assert_eq!(msgs[0].content.text, once);
}

#[test]
fn a_reminder_takes_the_place_of_the_last() {
    let mut msgs = vec![IncomingMessage::plain("system", "Be brief.".to_string())];
    prepend_reminder_to_system(&mut msgs, "first");
    let first = msgs[0].content.text.clone();
    assert!(first.contains("first") && first.ends_with("Be brief."));
    prepend_reminder_to_system(&mut msgs, "second");
    let second = msgs[0].content.text.clone();
    assert!(second.contains("second") && !second.contains("first"));
    assert!(second.ends_with("Be brief."));
}

fn reads(path: &str, times: usize) -> Vec<IncomingMessage> {
    let mut msgs = vec![IncomingMessage::plain("user", "look".to_string())];
    for _ in 0..times {
        let mut m = IncomingMessage::plain("assistant", String::new());
        m.tool_calls = Some(vec![IncomingToolCall {
            id: None,
            function: IncomingFunction {
                name: "read".to_string(),
                arguments: format!("{{\"file_path\":\"{path}\"}}"),
            },
        }]);
        msgs.push(m);
    }
    msgs
}

#[test]
fn repeated_calls_are_warned_of() {
    assert_eq!(build_f7_stall_reminder(&collect_f7_stall_buckets(&reads("a", 3))), None);
    let warned = build_f7_stall_reminder(&collect_f7_stall_buckets(&reads("a", 4))).unwrap();
    assert_eq!(
        warned,
        "\n\n<system-reminder>\nYou have already issued the following tool calls multiple times \
         in this conversation:\n- read(a) × 4\nThe retries are not making progress. Stop and \
         explain to the user what is blocking and what you need from them. Do not call these \
         tools again with the same arguments.\n</system-reminder>"
    );
    let refused = build_f7_stall_reminder(&collect_f7_stall_buckets(&reads("a", 5))).unwrap();
    assert!(refused.contains("- read(a) × 5\nSTOP retrying."));
}

#[test]
fn the_warnings_are_sorted() {
    let mut msgs = reads("b", 4);
    msgs.extend(reads("a", 4));
    let text = build_f7_stall_reminder(&collect_f7_stall_buckets(&msgs)).unwrap();
    assert!(text.contains("- read(a) × 4\n- read(b) × 4\n"));
    let mut turned = reads("a", 4);
    turned.extend(reads("b", 4));
    assert_eq!(build_f7_stall_reminder(&collect_f7_stall_buckets(&turned)), Some(text));
}

#[test]
fn a_warning_goes_to_the_last_word_of_the_user_or_a_tool() {
    let mut msgs = reads("a", 1);
    append_f7_reminder_to_last_user(&mut msgs, "\n\nstop");
    assert_eq!(msgs[0].content.text, "look\n\nstop");
    let mut alone = vec![IncomingMessage::plain("assistant", "hm".to_string())];
    append_f7_reminder_to_last_user(&mut alone, "\n\nstop");
    assert_eq!(alone.len(), 2);
    assert_eq!(alone[1].role, "system");
    assert_eq!(alone[1].content.text, "stop");
}

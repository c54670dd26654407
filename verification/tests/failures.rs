//! Calls that fail again and again.
use spark_server::failures::breaker::{
    f39_build_circuit_breaker_banner, f39_build_failure_cache, f39_class_label,
    f39_detect_recent_retries, f39_extract_binary_name, f44_check_permanent_failure,
};
use spark_server::failures::circuit::{f31_inject_hard_refusal, f32_reposition_failed_tool_result};
use spark_server::failures::classification::{
    f23_normalize_and_hash, f23_score_progress, F23ProgressMetrics, F37FailureClass,
};
use spark_server::failures::duplicate::{
    f49_build_banner, f49_detect_duplicate_writes, f49_extract_write_path_and_content,
    f50_append_original_error,
};
use spark_server::messages::IncomingMessage;
use spark_server::tools::{IncomingFunction, IncomingToolCall};

fn calls(id: &str, name: &str, args: &str) -> IncomingMessage {
    let mut m = IncomingMessage::plain("assistant", String::new());
    m.tool_calls = Some(vec![IncomingToolCall {
        id: Some(id.to_string()),
        function: IncomingFunction { name: name.to_string(), arguments: args.to_string() },
    }]);
    m
}

fn result(id: &str, text: &str) -> IncomingMessage {
    IncomingMessage::synthetic_tool(text.to_string(), id.to_string())
}

fn user(text: &str) -> IncomingMessage {
    IncomingMessage::plain("user", text.to_string())
}

fn cargo_fails_twice() -> Vec<IncomingMessage> {
    vec![
        user("build"),
        calls("1", "bash", "{\"command\":\"cargo build\"}"),
        result("1", "bash: cargo: command not found"),
        calls("2", "bash", "{\"command\":\"cargo build\"}"),
        result("2", "bash: cargo: command not found"),
    ]
}

#[test]
fn a_missing_command_is_remembered() {
    let msgs = cargo_fails_twice();
    let cache = f39_build_failure_cache(&msgs);
    assert!(f44_check_permanent_failure(&cache, "bash", "{\"command\":\"cargo build\"}"));
    assert!(f44_check_permanent_failure(&cache, "bash", "{\"command\":\"cargo test\"}"));
    assert!(!f44_check_permanent_failure(&cache, "bash", "{\"command\":\"ls\"}"));
    assert!(!f44_check_permanent_failure(&cache, "write", "{\"file_path\":\"a\"}"));
}

#[test]
fn a_call_is_blocked_where_it_is_reported() {
    for command in ["cargo build", "cargo test", "cd /x && cargo run", "ls"] {
        let args = format!("{{\"command\":\"{command}\"}}");
        let mut msgs = cargo_fails_twice();
        msgs.push(calls("3", "bash", &args));
        let cache = f39_build_failure_cache(&msgs);
        let reported = !f39_detect_recent_retries(&msgs).is_empty();
        assert_eq!(f44_check_permanent_failure(&cache, "bash", &args), reported, "{command}");
        assert_eq!(reported, command != "ls");
    }
}

#[test]
fn a_retry_is_detected_and_named() {
    let mut msgs = cargo_fails_twice();
    msgs.push(calls("3", "bash", "{\"command\":\"cargo build\"}"));
    let hits = f39_detect_recent_retries(&msgs);
    assert!(!hits.is_empty());
    assert_eq!(hits[0].tool, "bash");
    assert_eq!(hits[0].class, F37FailureClass::BinaryMissing);
    let banner = f39_build_circuit_breaker_banner(&hits);
    assert!(banner.contains("cargo"));
    assert!(banner.contains(f39_class_label(F37FailureClass::BinaryMissing)));
}

#[test]
fn the_command_is_the_first_word() {
    assert_eq!(f39_extract_binary_name("bash", "cargo build --release").as_deref(), Some("cargo"));
    assert_eq!(f39_extract_binary_name("write", "/tmp/x"), None);
    let led = f39_extract_binary_name("Bash", "cd /tmp && cargo build");
    assert_eq!(led.as_deref(), Some("cargo"));
}

#[test]
fn the_same_write_twice_is_a_duplicate() {
    let write = "{\"file_path\":\"/tmp/a.rs\",\"content\":\"fn main() {}\\n\"}";
    let other = "{\"file_path\":\"/tmp/a.rs\",\"content\":\"fn other() {}\\n\"}";
    let msgs = vec![
        user("write"),
        calls("1", "write", write),
        result("1", "ok"),
        calls("2", "write", write),
        result("2", "ok"),
    ];
    let hits = f49_detect_duplicate_writes(&msgs);
    assert_eq!(hits.len(), 1);
    assert_eq!(hits[0].file_path, "/tmp/a.rs");
    assert!(f49_build_banner(&hits).contains("/tmp/a.rs"));
    let msgs = vec![user("write"), calls("1", "write", write), calls("2", "write", other)];
    assert!(f49_detect_duplicate_writes(&msgs).is_empty());
    let (path, hash) = f49_extract_write_path_and_content("write", write).unwrap();
    assert_eq!(path, "/tmp/a.rs");
    assert_eq!(hash, f23_normalize_and_hash("fn main() {}\n"));
    assert!(f49_extract_write_path_and_content("bash", write).is_none());
}

#[test]
fn the_first_error_is_copied_to_the_end_once() {
    let mut msgs = cargo_fails_twice();
    assert!(f50_append_original_error(&mut msgs));
    assert_eq!(msgs.len(), 6);
    let last = &msgs[5];
    assert_eq!(last.role, "tool");
    assert_eq!(last.tool_call_id.as_deref(), Some("2"));
    assert!(last.content.text.starts_with("[atlas-original-error]"));
    assert!(last.content.text.contains("bash: cargo: command not found"));
    assert!(!f50_append_original_error(&mut msgs));
    assert_eq!(msgs.len(), 6);
    let mut clean = vec![user("a"), calls("1", "bash", "{}"), result("1", "ok"), user("b")];
    assert!(!f50_append_original_error(&mut clean));
}

#[test]
fn a_refusal_is_put_in_once() {
    let stuck = F23ProgressMetrics { score: 0, attempts: 6 };
    let mut msgs = cargo_fails_twice();
    assert!(f31_inject_hard_refusal(&mut msgs, stuck, 6));
    assert_eq!(msgs.len(), 6);
    assert_eq!(msgs[5].tool_call_id.as_deref(), Some("2"));
    assert!(msgs[5].content.text.starts_with("[tool error]\n[atlas-stall-guard]"));
    assert!(!f31_inject_hard_refusal(&mut msgs, stuck, 6));
    assert_eq!(msgs.len(), 6);
    let fine = F23ProgressMetrics { score: 3, attempts: 6 };
    let mut others = cargo_fails_twice();
    assert!(!f31_inject_hard_refusal(&mut others, fine, 6));
    let early = F23ProgressMetrics { score: 0, attempts: 5 };
    assert!(!f31_inject_hard_refusal(&mut others, early, 6));
    assert_eq!(others.len(), 5);
}

#[test]
fn a_failed_result_is_repeated_at_the_end() {
    let mut msgs = vec![
        calls("1", "bash", "{}"),
        result("1", "sh: x: command not found"),
        user("and?"),
        user("well?"),
    ];
    assert!(f32_reposition_failed_tool_result(&mut msgs));
    assert_eq!(msgs.len(), 5);
    assert_eq!(msgs[4].content.text, "sh: x: command not found");
    let mut near = vec![calls("1", "bash", "{}"), result("1", "[tool error] x"), user("and?")];
    assert!(!f32_reposition_failed_tool_result(&mut near));
    let mut clean = vec![result("1", "done"), user("a"), user("b")];
    assert!(!f32_reposition_failed_tool_result(&mut clean));
    assert_eq!(clean.len(), 3);
}

#[test]
fn line_ends_do_not_count_as_progress() {
    assert_eq!(f23_normalize_and_hash("a\nb\n"), f23_normalize_and_hash("a  \nb\n"));
    let m = f23_score_progress(&[user("hello")]);
    assert_eq!(m.attempts, 0);
}

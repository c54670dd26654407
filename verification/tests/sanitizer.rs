//! Tags that leak into plain content.
use spark_server::failures::leaks::strip_xml_leaks_from_assistant_content;
use spark_server::json_text::parse_json;
use spark_server::sanitizer::{flush_content_sanitizer, sanitize_content_chunk};
use spark_server::tool_args::{
    classify_tool, extract_bash_final_action, primary_arg_for_tool, ToolKind,
};
use spark_server::tools::{FunctionDefinition, LeakMarkers, ToolDefinition};

fn texts(s: &[&str]) -> Vec<String> {
    s.iter().map(|t| t.to_string()).collect()
}

fn empty_markers() -> LeakMarkers {
    LeakMarkers { orphan_open: vec![], close: vec![], envelope_open: vec![], envelope_close: vec![] }
}

/// The markers of a format with `<function=..>` and `<parameter=..>`; the
/// longest has 18 bytes.
fn qwen_markers() -> LeakMarkers {
    LeakMarkers {
        orphan_open: texts(&["<parameter=", "<function_results>"]),
        close: texts(&["</parameter>", "</function>", "</function_result>"]),
        envelope_open: vec![],
        envelope_close: vec![],
    }
}

/// The markers of a format whose calls stand in an envelope.
fn minimax_markers() -> LeakMarkers {
    LeakMarkers {
        orphan_open: texts(&["<invoke ", "<parameter name="]),
        close: texts(&["</invoke>", "</parameter>"]),
        envelope_open: texts(&["<minimax:tool_call>", "<minimax:_call>", "<tool_call>"]),
        envelope_close: texts(&["</minimax:tool_call>", "</minimax:_call>", "</tool_call>"]),
    }
}

fn sanitize(text: &str, buf: &mut String, suppress: &mut bool, markers: &LeakMarkers) -> String {
    let mut inside_envelope = false;
    sanitize_content_chunk(text, buf, suppress, &mut inside_envelope, markers)
}

fn declared(names: &[&str]) -> Vec<ToolDefinition> {
    names
        .iter()
        .map(|name| ToolDefinition {
            tool_type: "function".to_string(),
            function: FunctionDefinition {
                name: name.to_string(),
                description: None,
                parameters: parse_json("{\"type\": \"object\"}"),
            },
        })
        .collect()
}

#[test]
fn bash_final_action_returns_last_segment() {
    let out = extract_bash_final_action("mkdir -p /tmp/x/src && cd /tmp/x && cargo init --name a");
    assert!(out.starts_with("cargo init"), "got: {out}");
}

#[test]
fn bash_final_action_no_chain_returns_original() {
    let out = extract_bash_final_action("ls -la /tmp/x");
    assert!(out.starts_with("ls -la"));
}

#[test]
fn bash_final_action_empty_returns_empty() {
    assert_eq!(extract_bash_final_action(""), "");
}

#[test]
fn classify_tool_case_insensitive() {
    assert_eq!(classify_tool("Bash"), ToolKind::Bash);
    assert_eq!(classify_tool("bash"), ToolKind::Bash);
    assert_eq!(classify_tool("BASH"), ToolKind::Bash);
    assert_eq!(classify_tool("Write"), ToolKind::Write);
    assert_eq!(classify_tool("Edit"), ToolKind::Edit);
    assert_eq!(classify_tool("Read"), ToolKind::Read);
    assert_eq!(classify_tool("MultiEdit"), ToolKind::MultiEdit);
    assert_eq!(classify_tool("multiedit"), ToolKind::MultiEdit);
}

#[test]
fn classify_tool_unknown_is_other() {
    assert_eq!(classify_tool("GetWeather"), ToolKind::Other);
    assert_eq!(classify_tool(""), ToolKind::Other);
    assert_eq!(classify_tool("Bashly"), ToolKind::Other);
}

#[test]
fn primary_arg_write_snake_and_camel() {
    let out = primary_arg_for_tool("Write", r#"{"file_path":"/tmp/x.rs"}"#);
    assert_eq!(out.as_deref(), Some("/tmp/x.rs"));
    let out = primary_arg_for_tool("write", r#"{"filePath":"/tmp/y.rs"}"#);
    assert_eq!(out.as_deref(), Some("/tmp/y.rs"));
}

#[test]
fn primary_arg_bash_collapses_chain() {
    let out = primary_arg_for_tool("Bash", r#"{"command":"cd /tmp && cargo build"}"#);
    assert!(out.as_ref().is_some_and(|s| s.starts_with("cargo build")));
}

#[test]
fn primary_arg_unknown_tool_falls_back() {
    let out = primary_arg_for_tool("GetWeather", r#"{"location":"Paris"}"#);
    assert!(out.is_some(), "fallback path should return some(location=Paris)");
    assert_eq!(out.as_deref(), Some("location=Paris"));
}

#[test]
fn primary_arg_malformed_json_returns_none() {
    assert_eq!(primary_arg_for_tool("Write", "not json"), None);
}

#[test]
fn primary_arg_missing_key_returns_none() {
    let out = primary_arg_for_tool("Write", r#"{"content":"fn main(){}"}"#);
    assert_eq!(out, None);
}

#[test]
fn sanitize_plus_flush_round_trips_benign_text() {
    let markers = qwen_markers();
    let input = "Let me think. I'll use a brief acknowledgement \
                 and ask for the user's request.";
    let mut buf = String::new();
    let mut suppress = false;
    let mut inside_env = false;
    let emitted =
        sanitize_content_chunk(input, &mut buf, &mut suppress, &mut inside_env, &markers);
    assert!(emitted.len() < input.len());
    let tail = flush_content_sanitizer(&mut buf, &mut suppress, &markers);
    assert!(!tail.is_empty(), "flush must surface the held tail");
    assert_eq!(format!("{emitted}{tail}"), input);
    assert!(buf.is_empty(), "flush must drain the scan buffer");
}

#[test]
fn sanitizer_envelope_open_disables_orphan_suppression() {
    let markers = minimax_markers();
    for envelope_open in &["<minimax:tool_call>", "<minimax:_call>", "<tool_call>"] {
        let envelope_close = match *envelope_open {
            "<minimax:tool_call>" => "</minimax:tool_call>",
            "<minimax:_call>" => "</minimax:_call>",
            _ => "</tool_call>",
        };
        let body = format!(
            "{envelope_open}\n<invoke name=\"bash\">\n<parameter name=\"command\">uname -r</parameter>\n</invoke>\n{envelope_close}"
        );
        let mut buf = String::new();
        let mut suppress = false;
        let mut env = false;
        let out = sanitize_content_chunk(&body, &mut buf, &mut suppress, &mut env, &markers);
        assert!(out.contains("<invoke name=\"bash\">"), "{envelope_open}: {out:?}");
        assert!(out.contains("uname -r"), "{envelope_open}: {out:?}");
        assert!(out.contains("</invoke>"), "{envelope_open}: {out:?}");
        assert!(out.contains(envelope_open), "{out:?}");
        assert!(out.contains(envelope_close), "{out:?}");
        assert!(!suppress, "envelope path must not enter orphan suppression");
        assert!(!env, "envelope state cleared after close");
    }
}

#[test]
fn sanitizer_orphan_invoke_outside_envelope_still_suppressed() {
    let markers = minimax_markers();
    let body = "prefix<invoke name=\"bash\">cmd</invoke>tail";
    let mut buf = String::new();
    let mut suppress = false;
    let mut env = false;
    let out = sanitize_content_chunk(body, &mut buf, &mut suppress, &mut env, &markers);
    assert!(out.starts_with("prefix"), "non-orphan prefix emits: {out:?}");
    assert!(!out.contains("<invoke"), "stray <invoke> must still be suppressed: {out:?}");
    assert!(!out.contains("cmd"), "suppressed body bytes must not leak: {out:?}");
}

#[test]
fn sanitizer_noop_for_empty_markers() {
    let mut buf = String::new();
    let mut suppress = false;
    let out = sanitize(
        "<parameter=foo>value</parameter>",
        &mut buf,
        &mut suppress,
        &empty_markers(),
    );
    assert_eq!(out, "<parameter=foo>value</parameter>");
    assert!(buf.is_empty(), "no markers → no tail buffering");
    assert!(!suppress);
}

#[test]
fn sanitizer_suppresses_for_qwen3_markers() {
    let markers = qwen_markers();
    let mut buf = String::new();
    let mut suppress = false;
    let out = sanitize(
        "prefix<parameter=filePath>/tmp/x.txt</parameter>suffix</function>tail",
        &mut buf,
        &mut suppress,
        &markers,
    );
    assert!(out.starts_with("prefix"), "got: {out:?}");
    assert!(!out.contains("<parameter="), "orphan open must not leak: {out:?}");
    assert!(!out.contains("/tmp/x.txt"), "suppressed body must not leak: {out:?}");
    assert!(!out.contains("</function>"), "stray close must be stripped: {out:?}");
}

#[test]
fn sanitizer_fuses_tag_across_chunks() {
    let markers = qwen_markers();
    let mut buf = String::new();
    let mut suppress = false;
    let out1 = sanitize("abc<param", &mut buf, &mut suppress, &markers);
    assert!(!suppress, "partial tag must not trigger suppression");
    assert_eq!(out1, "", "short chunk stays in tail buffer awaiting fusion");
    let out2 = sanitize("eter=x>body</parameter>tail", &mut buf, &mut suppress, &markers);
    assert!(out2.starts_with("abc"), "prefix emits after fusion: {out2:?}");
    assert!(!out2.contains("body"), "suppressed body must not leak: {out2:?}");
    assert!(!out2.contains("<parameter="), "orphan open must not leak: {out2:?}");
    assert!(!suppress, "close tag exits suppression state");
}

#[test]
fn flush_empty_markers_emits_tail_verbatim() {
    let mut buf = String::from("anything");
    let mut suppress = false;
    let out = flush_content_sanitizer(&mut buf, &mut suppress, &empty_markers());
    assert_eq!(out, "anything");
    assert!(buf.is_empty());
}

#[test]
fn flush_drops_partial_tag_prefix() {
    let markers = qwen_markers();
    let mut buf = String::from("<par");
    let mut suppress = false;
    let out = flush_content_sanitizer(&mut buf, &mut suppress, &markers);
    assert_eq!(out, "");
}

#[test]
fn strip_leaks_removes_mirror_block_from_real_dump_msg4() {
    let tool_defs = declared(&["read", "write"]);
    let content = "\n\nLet me create the Rust calculator module with the source files first.\n\n<read>\n<filePath>\n/tmp/calc-test40/src/lib.rs\n</filePath>\n<offset>\n1\n</offset>\n<limit>\n100\n</limit>\n</read>";
    let out = strip_xml_leaks_from_assistant_content(content, &tool_defs);
    assert!(out.contains("Let me create the Rust calculator module"), "{out:?}");
    assert!(!out.contains("<read>"), "read leak must be stripped: {out:?}");
    assert!(!out.contains("<filePath>"), "inner tags must be stripped: {out:?}");
    assert!(!out.contains("/tmp/calc-test40/src/lib.rs"), "leaked path: {out:?}");
}

#[test]
fn strip_leaks_preserves_prose_without_blocks() {
    let tool_defs = declared(&["read"]);
    let content = "I'll read the config then write it back.";
    let out = strip_xml_leaks_from_assistant_content(content, &tool_defs);
    assert_eq!(out, content, "no XML block → no change");
}

#[test]
fn strip_leaks_skips_unclosed_block() {
    let tool_defs = declared(&["read"]);
    let content = "prose <read> more prose";
    let out = strip_xml_leaks_from_assistant_content(content, &tool_defs);
    assert_eq!(out, content);
}

#[test]
fn strip_leaks_handles_multiple_blocks() {
    let tool_defs = declared(&["read", "write"]);
    let content =
        "A <read><filePath>/a</filePath></read> B <write><filePath>/b</filePath></write> C";
    let out = strip_xml_leaks_from_assistant_content(content, &tool_defs);
    assert!(!out.contains("<read>"));
    assert!(!out.contains("<write>"));
    assert!(out.contains('A') && out.contains('B') && out.contains('C'), "{out:?}");
}

#[test]
fn strip_leaks_ignores_blocks_for_undeclared_tools() {
    let tool_defs = declared(&["write"]);
    let content = "prose <edit>something</edit> more";
    let out = strip_xml_leaks_from_assistant_content(content, &tool_defs);
    assert_eq!(out, content);
}

#[test]
fn flush_before_tool_boundary_recovers_from_stuck_suppression() {
    let markers = qwen_markers();
    let mut buf = String::new();
    let mut suppress = false;

    let prose =
        sanitize("Let me write it: <parameter=content>foo", &mut buf, &mut suppress, &markers);
    assert_eq!(prose, "Let me write it: ", "prefix emits: {prose:?}");
    assert!(suppress, "orphan `<parameter=` enters suppression");

    let pre_tool = flush_content_sanitizer(&mut buf, &mut suppress, &markers);
    assert_eq!(pre_tool, "", "suppressed tail is correctly dropped");
    assert!(!suppress, "flush clears the suppression flag");
    assert!(buf.is_empty(), "flush clears the tail buffer");

    let post_tool = sanitize("Done — here is the result.", &mut buf, &mut suppress, &markers);
    assert!(post_tool.starts_with("Done"), "{post_tool:?}");
    assert!(!suppress, "no new orphan, must stay out of suppression");
}

#[test]
fn a_chain_of_commands_is_known_by_its_last() {
    assert_eq!(extract_bash_final_action("cd /a ; ls | wc -l"), "ls | wc -l");
    assert_eq!(extract_bash_final_action("cargo build 2>&1"), "cargo build 2>&1");
    assert_eq!(extract_bash_final_action("make || true\nls"), "ls");
    assert_eq!(extract_bash_final_action(&"é".repeat(90)), "é".repeat(80));
    assert_eq!(
        primary_arg_for_tool("bash", r#"{"command":"cd /a && make all"}"#).as_deref(),
        Some("make all")
    );
}

#[test]
fn a_text_comes_out_the_same_however_it_is_cut() {
    let text = "a <tool_call><invoke x></invoke></tool_call> b <invoke y>z</invoke> c </parameter> d";
    let markers = minimax_markers();
    let run = |pieces: &[&str]| {
        let (mut buf, mut suppress, mut inside) = (String::new(), false, false);
        let mut out = String::new();
        for p in pieces {
            out.push_str(&sanitize_content_chunk(p, &mut buf, &mut suppress, &mut inside, &markers));
        }
        (out, buf, suppress, inside)
    };
    let whole = run(&[text]);
    assert_eq!(
        whole.0.clone() + &whole.1,
        "a <tool_call><invoke x></invoke></tool_call> b  c  d"
    );
    for i in 0..=text.len() {
        assert_eq!(run(&[&text[..i], &text[i..]]), whole, "cut at {i}");
    }
}

#[test]
fn content_without_a_leak_keeps_its_lines() {
    let out = strip_xml_leaks_from_assistant_content("a\n\n\nb", &declared(&["read"]));
    assert_eq!(out, "a\n\n\nb");
}

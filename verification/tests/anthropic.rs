//! The messages API in front of the chat pipeline.
use spark_server::anthropic::{
    build_count_body, build_count_entries, count_thinking, count_tokens, inner_error_message,
    read_system, reply_kind, take_reply, ContentBlock, CountContext, CountMessage, CountPolicy,
    CountServer, MessagesError, Reply, SystemContent,
};
use spark_server::json_text::parse_json;
use spark_server::tools::{FunctionDefinition, IncomingFunction, IncomingToolCall, ToolDefinition};

fn policy() -> CountPolicy {
    CountPolicy { disable_thinking: false, thinking_default: true, thinking_in_tools: false }
}

fn message(role: &str, text: &str) -> CountMessage {
    CountMessage { role: role.to_string(), text: text.to_string(), calls: vec![], blocks: None }
}

#[test]
fn an_inner_error_keeps_its_message() {
    assert_eq!(inner_error_message(b"{\"error\":{\"message\":\"too long\"}}"), "too long");
    assert_eq!(inner_error_message(b"plain words"), "plain words");
    assert_eq!(inner_error_message(b"{\"error\":1}"), "{\"error\":1}");
    assert_eq!(inner_error_message(b"bad \xff byte"), "bad \u{fffd} byte");
}

#[test]
fn a_reply_is_an_error_events_or_a_body() {
    assert_eq!(reply_kind(404, true), Reply::Error);
    assert_eq!(reply_kind(199, false), Reply::Error);
    assert_eq!(reply_kind(200, true), Reply::Events);
    assert_eq!(reply_kind(299, false), Reply::Body);
}

#[test]
fn the_client_decides_about_thinking() {
    assert!(count_thinking(policy(), None, false));
    assert!(!count_thinking(policy(), None, true));
    assert!(count_thinking(policy(), Some("enabled"), true));
    assert!(!count_thinking(policy(), Some("disabled"), false));
    assert!(count_thinking(policy(), Some("adaptive"), true));
    let off = CountPolicy { disable_thinking: true, ..policy() };
    assert!(!count_thinking(off, Some("enabled"), false));
}

#[test]
fn system_blocks_are_joined() {
    let blocks = SystemContent::Blocks(vec![
        ("text".to_string(), Some("one".to_string())),
        ("text".to_string(), Some("x-anthropic-billing: 1".to_string())),
        ("image".to_string(), Some("no".to_string())),
        ("text".to_string(), None),
        ("text".to_string(), Some("two".to_string())),
    ]);
    assert_eq!(read_system(&blocks), "one\ntwo");
    assert_eq!(read_system(&SystemContent::Text("s".to_string())), "s");
}

#[test]
fn tool_results_speak_for_their_tools() {
    let ctx = CountContext { tools_active: true, supports_thinking: true };
    let mut handed = message("user", "flat");
    handed.blocks = Some(vec![
        ContentBlock::ToolResult("42".to_string()),
        ContentBlock::Text(String::new()),
        ContentBlock::Other,
        ContentBlock::Text("go on".to_string()),
    ]);
    let mut called = message("assistant", "calling");
    called.calls = vec![IncomingToolCall {
        id: None,
        function: IncomingFunction { name: "f".to_string(), arguments: "nonsense".to_string() },
    }];
    let system = SystemContent::Text("sys".to_string());
    let es = build_count_entries(ctx, Some(&system), &vec![called, handed, message("odd", "hm")]);
    let seen: Vec<(&str, &str)> =
        es.iter().map(|e| (e.role.as_str(), e.content.as_str())).collect();
    assert_eq!(
        seen,
        vec![
            ("system", "sys"),
            ("assistant", "<think>\n\n</think>\n\ncalling"),
            ("tool", "42"),
            ("user", "go on"),
            ("user", "hm"),
        ]
    );
    assert_eq!(es[1].tool_calls.as_ref().unwrap().len(), 1);
    let plain = CountContext { tools_active: false, supports_thinking: false };
    let es = build_count_entries(plain, None, &vec![message("assistant", "a")]);
    assert_eq!(es[0].content, "a");
}

#[test]
fn a_prompt_is_made_for_counting() {
    let server = CountServer { has_parser: true, supports_thinking: false, policy: policy() };
    let tools = Some(vec![ToolDefinition {
        tool_type: "function".to_string(),
        function: FunctionDefinition {
            name: "f".to_string(),
            description: None,
            parameters: parse_json("{}"),
        },
    }]);
    let p = count_tokens(server, None, None, &vec![message("user", "hi")], &tools);
    assert_eq!(p.messages.len(), 1);
    assert_eq!(p.messages[0].get("content").unwrap().as_str().unwrap(), "hi");
    assert!(!p.enable_thinking);
    let t = p.tools.unwrap();
    assert_eq!(t[0].get("function").unwrap().get("name").unwrap().as_str().unwrap(), "f");
    let p = count_tokens(server, None, None, &vec![], &Some(vec![]));
    assert!(p.tools.is_none());
    assert!(p.enable_thinking);
    assert_eq!(build_count_body(Some(9)).get("input_tokens").unwrap().as_u64(), Some(9));
    assert_eq!(build_count_body(None).get("input_tokens").unwrap().as_u64(), Some(0));
}

#[test]
fn a_reply_is_taken_in() {
    let said = |e: MessagesError| (e.status, e.kind, e.message);
    let api = "api_error".to_string();
    let chat = take_reply(200, Ok(b"{\"id\":\"c\"}"), "").unwrap();
    assert!(chat.get("id").is_some());
    assert_eq!(
        said(take_reply(200, Ok(b"{"), "EOF").unwrap_err()),
        (500, api.clone(), "Inner response decode error: EOF".to_string())
    );
    assert_eq!(
        said(take_reply(400, Ok(b"{\"error\":{\"message\":\"no\"}}"), "").unwrap_err()),
        (400, api.clone(), "no".to_string())
    );
    assert_eq!(
        said(take_reply(200, Err("cut".to_string()), "").unwrap_err()),
        (500, api.clone(), "Body collect error: cut".to_string())
    );
    assert_eq!(
        said(take_reply(503, Err("cut".to_string()), "").unwrap_err()),
        (500, api, "Error body collect: cut".to_string())
    );
    let invalid = "invalid_request_error".to_string();
    assert_eq!(
        said(MessagesError::invalid_json("x")),
        (400, invalid.clone(), "Invalid request JSON: x".to_string())
    );
    assert_eq!(
        said(MessagesError::untranslatable("x")),
        (400, invalid, "Translation error: x".to_string())
    );
}

//! A chat request on its way to the scheduler.
use spark_server::chat::entries::{build_msg_entries, EntryContext};
use spark_server::chat::masking::apply_mask;
use spark_server::chat::sampling::{
    build_sampling, choose_numbers, tokenize_stop_sequences, GrammarSpec, SamplingContext,
    SamplingPreset, SamplingPresets,
};
use spark_server::chat::template::{json_messages, needs_expansion, template_thinking};
use spark_server::chat::thinking::{resolve_thinking, ThinkingPolicy};
use spark_server::chat::validate::{
    check_prompt_length, check_stream_choices, inject_tool_prompt, invalid_json, tools_active,
    validate_input,
};
use spark_server::messages::IncomingMessage;
use spark_server::openai::chat_request::{ChatCompletionRequest, ToolChoice};
use spark_server::tools::{FunctionDefinition, IncomingFunction, IncomingToolCall, ToolDefinition};

fn user(text: &str) -> IncomingMessage {
    IncomingMessage::plain("user", text.to_string())
}

fn request(messages: Vec<IncomingMessage>) -> ChatCompletionRequest<f32> {
    ChatCompletionRequest::of_messages("m", messages)
}

fn tool(name: &str) -> ToolDefinition {
    ToolDefinition {
        tool_type: "function".to_string(),
        function: FunctionDefinition { name: name.to_string(), description: None, parameters: None },
    }
}

#[test]
fn requests_are_checked() {
    assert!(validate_input(&request(vec![user("hi")]), true, true).is_ok());
    assert_eq!(validate_input(&request(vec![]), true, true).unwrap_err().status, 400);
    assert!(validate_input(&request(vec![user("hi")]), false, true).is_err());
    assert!(validate_input(&request(vec![user("hi")]), true, false).is_err());
    let long: Vec<IncomingMessage> = (0..2049).map(|_| user("x")).collect();
    assert!(validate_input(&request(long), true, true).is_err());
    assert!(check_prompt_length(9, 10).is_ok());
    let e = check_prompt_length(10, 10).unwrap_err();
    assert_eq!(
        e.message,
        "Prompt too long: 10 tokens exceeds max_seq_len 10 (leave room for output tokens)"
    );
    assert!(check_stream_choices(1).is_ok());
    assert!(check_stream_choices(2).is_err());
    assert_eq!(invalid_json("eof").message, "Invalid request JSON: eof");
}

#[test]
fn tools_are_active_unless_ruled_out() {
    let mut req = request(vec![user("hi")]);
    assert!(!tools_active(&req, true));
    req.tools = Some(vec![tool("f")]);
    assert!(tools_active(&req, true));
    assert!(!tools_active(&req, false));
    req.tool_choice = Some(ToolChoice::Mode("none".to_string()));
    assert!(!tools_active(&req, true));
}

#[test]
fn the_tool_prompt_leads() {
    let mut msgs = vec![IncomingMessage::plain("system", "Be brief.".to_string()), user("hi")];
    inject_tool_prompt(&mut msgs, "Call tools.".to_string());
    assert_eq!(msgs.len(), 2);
    assert_eq!(msgs[0].content.text, "Call tools.\n\nBe brief.");
    let mut msgs = vec![user("hi")];
    inject_tool_prompt(&mut msgs, "Call tools.".to_string());
    assert_eq!(msgs.len(), 2);
    assert_eq!(msgs[0].role, "system");
    assert_eq!(msgs[0].content.text, "Call tools.");
}

#[test]
fn thinking_that_is_off_stays_off() {
    let off = ThinkingPolicy {
        disabled: true,
        thinking_default: true,
        thinking_in_tools: true,
        max_thinking_budget: 1000,
    };
    let mut req = request(vec![user("hi")]);
    req.enable_thinking = true;
    assert!(!resolve_thinking(&off, &req, false).0);
    let on = ThinkingPolicy { disabled: false, ..off };
    let (enabled, budget) = resolve_thinking(&on, &req, false);
    assert!(enabled);
    assert!(budget.unwrap() <= 1000);
}

#[test]
fn a_budget_stays_under_the_ceiling_and_within_the_answer() {
    let policy = ThinkingPolicy {
        disabled: false,
        thinking_default: false,
        thinking_in_tools: true,
        max_thinking_budget: 1000,
    };
    let mut req = request(vec![user("hi")]);
    req.thinking_token_budget = Some(5000);
    req.max_tokens = 10_000;
    assert_eq!(resolve_thinking(&policy, &req, false), (true, Some(1000)));
    req.thinking_token_budget = Some(500);
    assert_eq!(resolve_thinking(&policy, &req, false), (true, Some(500)));
    req.max_tokens = 100;
    assert_eq!(resolve_thinking(&policy, &req, false), (true, Some(90)));
    assert_eq!(resolve_thinking(&policy, &req, true), (true, Some(70)));
    req.max_tokens = usize::MAX;
    assert_eq!(resolve_thinking(&policy, &req, true), (true, Some(500)));
}

#[test]
fn messages_become_entries() {
    let ctx = EntryContext { tools_active: true, thinking_in_tools: true, supports_thinking: false };
    let mut call = IncomingMessage::plain("assistant", String::new());
    call.tool_calls = Some(vec![IncomingToolCall {
        id: Some("1".to_string()),
        function: IncomingFunction { name: "f".to_string(), arguments: "{\"a\":1}".to_string() },
    }]);
    let msgs = vec![
        IncomingMessage::plain("system", "  Working Directory: /home/me/proj\nBe brief.".to_string()),
        user("hi"),
        call,
        IncomingMessage::synthetic_tool("Error: x".to_string(), "1".to_string()),
    ];
    let failed = vec![false, false, false, true];
    let out = build_msg_entries(&msgs, &failed, &ctx);
    assert_eq!(out.messages.len(), 4);
    assert_eq!(out.cwd_hint.as_deref(), Some("/home/me/proj"));
    assert_eq!(out.messages[2].tool_calls.as_ref().unwrap().len(), 1);
    assert_eq!(out.messages[3].failures_in_a_row, 1);
    let js = json_messages(&out.messages);
    assert_eq!(js[1].get("role").unwrap().as_str().unwrap(), "user");
    let args = js[2].get("tool_calls").unwrap().as_array().unwrap()[0]
        .get("function")
        .unwrap()
        .get("arguments")
        .unwrap();
    assert_eq!(args.get("a").unwrap().as_u64(), Some(1));
}

#[test]
fn stale_bodies_are_replaced() {
    let ctx = EntryContext { tools_active: false, thinking_in_tools: true, supports_thinking: false };
    let mut out = build_msg_entries(&vec![user("a"), user("b")], &vec![false, false], &ctx);
    let n = apply_mask(&mut out.messages, &vec![None, Some("(elided)".to_string())]);
    assert_eq!(n, 1);
    assert_eq!(out.messages[0].content, "a");
    assert_eq!(out.messages[1].content, "(elided)");
    assert_eq!(out.messages[1].role, "user");
}

#[test]
fn a_prompt_may_begin_inside_thinking() {
    assert_eq!(
        template_thinking(&vec![1, 2, 90], Some(90), Some(91), false, None, 500),
        (true, Some(500))
    );
    assert_eq!(
        template_thinking(&vec![1, 90, 91], Some(90), Some(91), false, None, 500),
        (false, None)
    );
    assert_eq!(
        template_thinking(&vec![90, 1, 2, 3, 4, 5, 6, 7, 8], Some(90), None, false, None, 500),
        (false, None)
    );
    assert_eq!(template_thinking(&vec![90], None, None, true, Some(3), 500), (true, Some(3)));
    assert!(needs_expansion(&vec![1, 2]));
    assert!(!needs_expansion(&vec![1, 1]));
}

fn preset(x: f32) -> SamplingPreset<f32> {
    SamplingPreset {
        temperature: x,
        top_k: 20,
        top_p: 0.9,
        repetition_penalty: 1.0,
        presence_penalty: 0.0,
        frequency_penalty: 0.0,
        dry_multiplier: 0.0,
        dry_base: 1.75,
        dry_allowed_length: 2,
        lz_penalty: 0.0,
    }
}

fn presets() -> SamplingPresets<f32> {
    SamplingPresets {
        tools: preset(0.2),
        thinking_text: preset(0.6),
        non_thinking: preset(0.7),
        top_n_sigma: 1.5,
        min_p: 0.05,
    }
}

fn context(tools_active: bool) -> SamplingContext {
    SamplingContext {
        encodings: vec![vec![9], vec![1, 2], vec![4], vec![9]],
        call_end: Some(vec![77]),
        parser: Some("hermes".to_string()),
        tool_max_tokens: 100,
        tools_active,
        enable_thinking: false,
        presence_out: None,
        frequency_out: None,
    }
}

#[test]
fn numbers_come_from_the_request_or_the_preset() {
    let mut req = request(vec![user("hi")]);
    assert_eq!(choose_numbers(&req, &presets(), false, false).temperature, 0.7);
    assert_eq!(choose_numbers(&req, &presets(), false, true).temperature, 0.6);
    assert_eq!(choose_numbers(&req, &presets(), true, true).temperature, 0.2);
    req.temperature = Some(1.1);
    let n = choose_numbers(&req, &presets(), true, true);
    assert_eq!(n.temperature, 1.1);
    assert_eq!(n.min_p, 0.05);
}

#[test]
fn sampling_is_settled() {
    let mut req = request(vec![user("hi")]);
    req.max_tokens = 4000;
    req.logit_bias = Some(vec![("12".to_string(), 0.5), ("x".to_string(), 1.0)]);
    req.top_logprobs = Some(50);
    req.tools = Some(vec![tool("f"), tool("g")]);
    req.tool_choice = Some(ToolChoice::Specific { function: "g".to_string() });
    let numbers = choose_numbers(&req, &presets(), true, false);
    let s = build_sampling(req, numbers, context(true)).unwrap();
    assert_eq!(s.max_tokens, 100);
    assert_eq!(s.logit_bias, vec![(12, 0.5)]);
    assert_eq!(s.stop_tokens, vec![4, 9, 77]);
    assert_eq!(s.top_logprobs, Some(20));
    assert!(s.tool_choice_required);
    match s.grammar_spec {
        Some(GrammarSpec::ToolCall { tools, parser, use_triggers, .. }) => {
            assert_eq!(tools.len(), 1);
            assert_eq!(tools[0].function.name, "g");
            assert_eq!(parser, "hermes");
            assert!(!use_triggers);
        }
        _ => panic!("expected a grammar of calls"),
    }
    let req = request(vec![user("hi")]);
    let numbers = choose_numbers(&req, &presets(), false, false);
    let mut ctx = context(false);
    ctx.presence_out = Some("3.5".to_string());
    assert_eq!(
        build_sampling(req, numbers, ctx).unwrap_err().message,
        "presence_penalty must be between -2.0 and 2.0, got 3.5"
    );
    assert_eq!(tokenize_stop_sequences(&vec![vec![5], vec![3], vec![5]]), vec![3, 5]);
}

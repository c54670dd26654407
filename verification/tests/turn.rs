//! A chat turn, from the request to the job.
use spark_server::chat::sampling::{
    GrammarSpec, SamplingContext, SamplingNumbers, SamplingPreset, SamplingPresets,
};
use spark_server::chat::thinking::{fall_back, ThinkingPolicy};
use spark_server::chat::turn::{ChatTurn, JobOrigin, TurnPolicy};
use spark_server::chat::validate::image_failed;
use spark_server::json_text::parse_json;
use spark_server::messages::IncomingMessage;
use spark_server::openai::chat_request::{
    ChatCompletionRequest, ChatTemplateKwargs, StreamOptions, ToolChoice,
};
use spark_server::tools::{FunctionDefinition, ToolDefinition};

fn policy() -> TurnPolicy {
    TurnPolicy {
        has_parser: true,
        supports_thinking: false,
        thinking: ThinkingPolicy {
            disabled: false,
            thinking_default: false,
            thinking_in_tools: true,
            max_thinking_budget: 64,
        },
        max_seq_len: 10,
        think_start: Some(50),
        think_end: Some(51),
        fallback: None,
    }
}

fn request(text: &str) -> ChatCompletionRequest<f32> {
    ChatCompletionRequest::of_messages("m", vec![IncomingMessage::plain("user", text.to_string())])
}

fn with_tool(text: &str) -> ChatCompletionRequest<f32> {
    let mut r = request(text);
    r.tools = Some(vec![ToolDefinition {
        tool_type: "function".to_string(),
        function: FunctionDefinition {
            name: "f".to_string(),
            description: None,
            parameters: parse_json(r#"{"type": "object", "properties": {"x": {"type": "string"}}}"#),
        },
    }]);
    r
}

#[test]
fn a_tool_that_no_grammar_can_hold_is_rejected() {
    let mut req = with_tool("go");
    let bad = |name: &str, schema: &str| ToolDefinition {
        tool_type: "function".to_string(),
        function: FunctionDefinition {
            name: name.to_string(),
            description: None,
            parameters: parse_json(schema),
        },
    };
    let tools = req.tools.as_mut().unwrap();
    tools.push(bad("none", r#"{"type": "object"}"#));
    tools.push(bad("never", "false"));
    let err = ChatTurn::open(&policy(), req, true, true).unwrap_err();
    assert_eq!(err.status, 400);
    assert!(err.message.starts_with("tool `none` at `#`: object schema has no `properties`"));
    assert!(err.message.ends_with("; tool `never` at `#`: `false` schema accepts no values"));
}

#[test]
fn a_prompt_that_opens_thinking_stays_within_the_answer() {
    let opened = |p: TurnPolicy, max_tokens: usize| {
        let mut req = request("go");
        req.max_tokens = max_tokens;
        let turn = ChatTurn::open(&p, req, true, true).unwrap().lay_out(&p, &vec![false]);
        let turn = turn.take_prompt(&p, Ok(vec![1, 50])).unwrap();
        (turn.enable_thinking, turn.thinking_budget)
    };
    assert_eq!(opened(policy(), 1000), (true, Some(64)));
    assert_eq!(opened(policy(), 20), (true, Some(18)));
    let mut off = policy();
    off.thinking.disabled = true;
    assert_eq!(opened(off, 1000), (false, None));
}

fn presets() -> SamplingPresets<f32> {
    let preset = |temperature: f32| SamplingPreset {
        temperature,
        top_k: 20,
        top_p: 0.9,
        repetition_penalty: 1.0,
        presence_penalty: 0.0,
        frequency_penalty: 0.0,
        dry_multiplier: 0.0,
        dry_base: 1.75,
        dry_allowed_length: 2,
        lz_penalty: 0.0,
    };
    SamplingPresets {
        tools: preset(0.2),
        thinking_text: preset(0.6),
        non_thinking: preset(0.7),
        top_n_sigma: 1.0,
        min_p: 0.0,
    }
}

fn context() -> SamplingContext {
    SamplingContext {
        encodings: vec![vec![9]],
        call_end: Some(vec![77]),
        parser: Some("hermes".to_string()),
        tool_max_tokens: 100,
        tools_active: false,
        enable_thinking: false,
        presence_out: None,
        frequency_out: None,
    }
}

fn origin() -> JobOrigin<f32, u64> {
    JobOrigin {
        request_id: "r".to_string(),
        session_hash: 3,
        image_pixels: Vec::new(),
        disable_mtp: true,
        timeout_at: Some(8),
    }
}

fn numbers_at(n: SamplingNumbers<f32>) -> f32 {
    n.temperature
}

#[test]
fn a_turn_with_tools_becomes_a_job() {
    let mut req = with_tool("go");
    req.stop = vec!["END".to_string()];
    req.seed = Some(5);
    req.metadata = Some(vec![("k".to_string(), "v".to_string())]);
    let mut turn = ChatTurn::open(&policy(), req, true, true).unwrap();
    assert!(turn.tools_active);
    turn.take_tool_prompt("Call tools.".to_string());
    assert_eq!(turn.req.messages.len(), 2);
    let mut turn = turn.lay_out(&policy(), &vec![false, false]);
    assert_eq!(turn.entries[0].content, "Call tools.");
    assert!(!turn.enable_thinking);
    assert_eq!(turn.replace_bodies(&vec![None, Some("stay".to_string())]), 1);
    assert_eq!(turn.template_messages().len(), 2);
    assert_eq!(turn.entries[1].content, "stay");
    let turn = turn.take_prompt(&policy(), Ok(vec![1, 2, 3])).unwrap();
    let numbers = turn.numbers(&presets());
    assert_eq!(numbers_at(turn.numbers(&presets())), 0.2);
    let (job, d) = turn.into_job(numbers, context(), origin()).unwrap();
    assert_eq!(job.prompt_tokens, vec![1, 2, 3]);
    assert_eq!(job.stop_tokens, vec![9, 77]);
    assert_eq!(job.max_tokens, 100);
    assert_eq!(job.seed, Some(5));
    assert_eq!(job.request_id, "r");
    assert_eq!((job.session_hash, job.timeout_at), (3, Some(8)));
    assert!(job.disable_mtp);
    assert!(matches!(job.grammar_spec, Some(GrammarSpec::ToolCall { .. })));
    assert!(d.tools_active && !d.stream);
    assert_eq!(d.tools[0].function.name, "f");
    assert_eq!(d.stops, vec!["END".to_string()]);
    assert_eq!(d.metadata, Some(vec![("k".to_string(), "v".to_string())]));
}

#[test]
fn a_turn_that_rules_out_calls_has_none() {
    let mut req = with_tool("go");
    req.tool_choice = Some(ToolChoice::Mode("none".to_string()));
    let mut turn = ChatTurn::open(&policy(), req, true, true).unwrap();
    assert!(!turn.tools_active);
    turn.take_tool_prompt("Call tools.".to_string());
    assert_eq!(turn.req.messages.len(), 1);
    let turn = turn.lay_out(&policy(), &vec![false]);
    let turn = turn.take_prompt(&policy(), Ok(vec![1])).unwrap();
    let numbers = turn.numbers(&presets());
    let mut ctx = context();
    ctx.tools_active = true;
    let (job, d) = turn.into_job(numbers, ctx, origin()).unwrap();
    assert!(job.grammar_spec.is_none());
    assert!(!job.require_tool_call);
    assert_eq!(job.stop_tokens, vec![9]);
    assert!(!d.tools_active);
}

#[test]
fn a_request_is_refused_on_the_way() {
    let bad = ChatTurn::open(&policy(), request("x"), false, true).unwrap_err();
    assert_eq!(bad.param.as_deref(), Some("temperature"));
    let open = || ChatTurn::open(&policy(), request("x"), true, true).unwrap();
    let laid = |t: ChatTurn<f32>| t.lay_out(&policy(), &vec![false]);
    let e = laid(open()).take_prompt(&policy(), Err("no template".to_string())).unwrap_err();
    assert_eq!((e.status, e.message.as_str()), (400, "Tokenization error: no template"));
    let e = laid(open()).take_prompt(&policy(), Ok(vec![0; 10])).unwrap_err();
    assert_eq!(
        e.message,
        "Prompt too long: 10 tokens exceeds max_seq_len 10 (leave room for output tokens)"
    );
    let mut turn = open();
    turn.req.stream = true;
    turn.req.n = 2;
    let turn = laid(turn).take_prompt(&policy(), Ok(vec![1])).unwrap();
    let numbers = turn.numbers(&presets());
    let e = turn.into_job(numbers, context(), origin()).unwrap_err();
    assert_eq!(e.message, "n > 1 is not supported in streaming mode");
    let turn = laid(open()).take_prompt(&policy(), Ok(vec![1])).unwrap();
    let numbers = turn.numbers(&presets());
    let mut ctx = context();
    ctx.frequency_out = Some("9".to_string());
    let e = turn.into_job(numbers, ctx, origin()).unwrap_err();
    assert_eq!(e.message, "frequency_penalty must be between -2.0 and 2.0, got 9");
    assert_eq!(image_failed("bad").message, "Image decode error: bad");
}

#[test]
fn a_stream_keeps_its_options_and_its_drafts() {
    let mut req = request("x");
    req.stream = true;
    req.stream_options = Some(StreamOptions { include_usage: true, include_obfuscation: false });
    let turn = ChatTurn::open(&policy(), req, true, true).unwrap();
    let turn = turn.lay_out(&policy(), &vec![false]);
    let turn = turn.take_prompt(&policy(), Ok(vec![1])).unwrap();
    let numbers = turn.numbers(&presets());
    let (job, d) = turn.into_job(numbers, context(), origin()).unwrap();
    assert!(!job.disable_mtp);
    assert!(d.stream && d.include_usage);
}

#[test]
fn an_open_thinking_block_makes_the_model_think() {
    let turn = ChatTurn::open(&policy(), request("x"), true, true).unwrap();
    let turn = turn.lay_out(&policy(), &vec![false]);
    assert!(!turn.enable_thinking);
    let turn = turn.take_prompt(&policy(), Ok(vec![1, 50])).unwrap();
    assert!(turn.enable_thinking);
    assert_eq!(turn.thinking_budget, Some(64));
}

#[test]
fn the_operator_speaks_where_the_client_is_silent() {
    let on = ChatTemplateKwargs { enable_thinking: Some(true), thinking_budget: Some(7) };
    assert_eq!(fall_back(request("x"), Some(on)).resolve_thinking(false), (true, Some(7)));
    assert_eq!(fall_back(request("x"), None).resolve_thinking(false), (false, None));
    let mut req = request("x");
    req.thinking_token_budget = Some(0);
    assert_eq!(fall_back(req, Some(on)).resolve_thinking(true), (false, Some(0)));
    let mut p = policy();
    p.fallback = Some(on);
    let turn = ChatTurn::open(&p, request("x"), true, true).unwrap();
    let turn = turn.lay_out(&p, &vec![false]);
    assert_eq!((turn.enable_thinking, turn.thinking_budget), (true, Some(7)));
}

//! The parts that the larger steps are made of.
use spark_server::chat_fsm::events::{FsmEvent, StopReason};
use spark_server::chat_fsm::stepper::{
    Stepper, StepperConfig, StepperCore, ThinkingScanResult, ThinkingScanner, ToolDetector,
};
use spark_server::chat_stream::state::{StreamPhase, StreamState};
use spark_server::chat_stream::wire::Wire;
use spark_server::decimal::{dec_i32, read_unsigned};
use spark_server::grammar::schema::resolve_local_ref;
use spark_server::json::json_same;
use spark_server::json_text::parse_json;
use spark_server::openai::chat_response::{
    assemble_chat_response, build_usage, ChatCompletionChunk, ChatCompletionResponse,
};
use spark_server::order::sort_strings;
use spark_server::text::{char_is_space, chars_of, same_ignoring_case, string_of_all, CharSet};
use spark_server::tools::{DetectorOutput, FunctionCall, ToolCall};
use spark_server::trim::{first_word_of, lines_of, replace_chars, split_of, trim_chars};

fn call() -> ToolCall {
    ToolCall {
        id: "c".to_string(),
        call_type: "function".to_string(),
        function: FunctionCall { name: "f".to_string(), arguments: "{}".to_string() },
    }
}

struct Silent;

impl ThinkingScanner for Silent {
    fn process(&mut self, chunk: &str) -> ThinkingScanResult {
        ThinkingScanResult::Continue { emit: chunk.to_string() }
    }

    fn flush(&mut self) -> String {
        String::new()
    }
}

impl ToolDetector for Silent {
    fn process(&mut self, delta: &str) -> Vec<DetectorOutput> {
        vec![DetectorOutput::Content(delta.to_string())]
    }

    fn flush(&mut self) -> Vec<DetectorOutput> {
        Vec::new()
    }

    fn reset(&mut self) {}

    fn has_tool_calls(&self) -> bool {
        false
    }
}

#[test]
fn a_scan_ends_the_thinking() {
    let mut core = StepperCore::new(true, Vec::new());
    let mut out = Vec::new();
    let scan = ThinkingScanResult::Continue { emit: "hm".to_string() };
    assert_eq!(core.take_scan(scan, &mut out), None);
    assert!(core.is_thinking());
    let scan = ThinkingScanResult::Transition {
        final_reasoning: " so".to_string(),
        content_start: " \n".to_string(),
    };
    let rest = core.take_scan(scan, &mut out).unwrap();
    assert!(!core.is_thinking());
    assert_eq!(core.begin_content(rest), None);
    assert_eq!(core.begin_content(" Yes".to_string()), Some("Yes".to_string()));
    assert_eq!(core.begin_content(" or".to_string()), Some(" or".to_string()));
    assert_eq!(
        out,
        vec![
            FsmEvent::ReasoningDelta("hm".to_string()),
            FsmEvent::ReasoningDelta(" so".to_string()),
        ]
    );
}

#[test]
fn outputs_become_events_until_a_stop_string() {
    let mut core = StepperCore::new(false, vec!["END".to_string()]);
    let mut out = Vec::new();
    core.dispatch_detector_outputs(
        vec![
            DetectorOutput::ToolCallStart { id: "c".to_string(), name: "f".to_string(), idx: 0 },
            DetectorOutput::ToolCallDelta { args: "{}".to_string(), idx: 0 },
        ],
        &mut out,
    );
    assert_eq!(core.tool_acc(0).unwrap().args, "{}");
    assert!(core.tool_acc(1).is_none());
    core.dispatch_detector_outputs(vec![DetectorOutput::ToolCallEnd { idx: 0 }], &mut out);
    core.emit_content_with_stop_check("a END".to_string(), &mut out);
    assert!(core.is_stopped());
    assert!(out.contains(&FsmEvent::ContentDelta("a ".to_string())));
    assert!(core.take_tails(None, None, "stop".to_string()).is_empty());
}

#[test]
fn the_tails_come_before_the_end() {
    let mut core = StepperCore::new(true, Vec::new());
    let out = core.take_tails(
        Some("rest".to_string()),
        Some(vec![DetectorOutput::Content("tail".to_string())]),
        "length".to_string(),
    );
    assert_eq!(
        out,
        vec![
            FsmEvent::ReasoningDelta("rest".to_string()),
            FsmEvent::ContentDelta("tail".to_string()),
            FsmEvent::Stopped { reason: StopReason::Upstream("length".to_string()) },
        ]
    );
}

#[test]
fn a_piece_of_text_is_a_step() {
    let cfg = StepperConfig { enable_thinking: false, tools_active: false, stop_strings: vec![] };
    let mut s: Stepper<Silent, Silent> = Stepper::new(cfg, None, Silent);
    assert_eq!(
        s.feed_chunk("Hi".to_string()),
        vec![FsmEvent::ContentDelta("Hi".to_string())]
    );
    assert_eq!(
        s.flush("stop".to_string()),
        vec![FsmEvent::Stopped { reason: StopReason::Upstream("stop".to_string()) }]
    );
}

#[test]
fn a_stream_changes_its_phase() {
    let mut s = StreamState::new(true);
    assert!(s.is_thinking());
    assert!(s.enter_content());
    assert!(!s.enter_content());
    assert_eq!(s.phase(), StreamPhase::Content);
    s.enter_thinking();
    assert!(s.is_thinking());
    let mut out: Vec<Wire<f64>> = Vec::new();
    s.emit_reasoning("hm", &mut out);
    let scan = ThinkingScanResult::Transition {
        final_reasoning: String::new(),
        content_start: "x".to_string(),
    };
    assert_eq!(s.thinking_step(scan, true, &mut out), Some("x".to_string()));
    s.handle_complete_tool_call(call(), 0, &mut out);
    assert_eq!(out.len(), 3);
    s.mark_stopped();
    s.enter_thinking();
    assert_eq!(s.phase(), StreamPhase::Stopped);
}

#[test]
fn chunks_of_a_call_and_of_the_end() {
    let start: ChatCompletionChunk<f64, ()> =
        ChatCompletionChunk::tool_call_start_chunk("m", "id", 7, &call(), 1);
    let d = &start.choices[0].delta.tool_calls.as_ref().unwrap()[0];
    assert_eq!((d.index, d.id.as_deref()), (1, Some("c")));
    assert_eq!(d.function.arguments, "");
    let args: ChatCompletionChunk<f64, ()> =
        ChatCompletionChunk::tool_call_args_fragment("m", "id", 7, 1, "{}");
    let d = &args.choices[0].delta.tool_calls.as_ref().unwrap()[0];
    assert_eq!((d.id.as_deref(), d.function.arguments.as_str()), (None, "{}"));
    let used = || build_usage(10, 2, 1.0, 2.0, 0, 0, 0, 0, "r".to_string());
    let done: ChatCompletionChunk<f64, ()> =
        ChatCompletionChunk::done_chunk("m", "id", 7, "stop", used());
    assert_eq!(done.choices[0].finish_reason.as_deref(), Some("stop"));
    assert_eq!(done.usage.unwrap().total_tokens, 12);
    let last: ChatCompletionChunk<f64, ()> =
        ChatCompletionChunk::final_chunk_no_usage("m", "id", 7, "length");
    assert!(last.usage.is_none());
    let only: ChatCompletionChunk<f64, ()> =
        ChatCompletionChunk::usage_only_chunk("m", "id", 7, used());
    assert!(only.choices.is_empty());
    let whole: ChatCompletionResponse<f64, ()> = assemble_chat_response(
        "id".to_string(),
        "m".to_string(),
        7,
        Vec::new(),
        used(),
        Some("default".to_string()),
        None,
    );
    assert_eq!(whole.service_tier.as_deref(), Some("default"));
    assert_eq!((whole.id.as_str(), whole.created), ("id", 7));
}

fn text(v: &Vec<char>) -> String {
    string_of_all(v)
}

#[test]
fn texts_are_cut_and_joined() {
    let lines = lines_of(&chars_of("a\r\nb\n\nc"));
    let lines: Vec<String> = lines.iter().map(text).collect();
    assert_eq!(lines, "a\r\nb\n\nc".lines().collect::<Vec<&str>>());
    let trimmed = trim_chars(&chars_of("\u{3000} x y\t"), CharSet::White);
    assert_eq!(text(&trimmed), "\u{3000} x y\t".trim());
    let words = split_of(&chars_of("a b  c"), CharSet::White);
    assert_eq!(words.iter().map(text).collect::<Vec<String>>(), vec!["a", "b", "", "c"]);
    assert_eq!(text(&first_word_of(&chars_of("  go on")).unwrap()), "go");
    let new = replace_chars(&chars_of("aaab"), &chars_of("aa"), &chars_of("x"));
    assert_eq!(text(&new), "aaab".replace("aa", "x"));
    for c in [' ', '\t', '\u{85}', '\u{a0}', '\u{2003}', '\u{200b}', 'x'] {
        assert_eq!(char_is_space(c), c.is_whitespace());
    }
    assert!(same_ignoring_case("ReAd", "read"));
    assert!(!same_ignoring_case("\u{c9}", "\u{e9}"));
}

#[test]
fn numbers_are_written_and_read() {
    assert_eq!(dec_i32(i32::MIN), i32::MIN.to_string());
    assert_eq!(dec_i32(0), "0");
    assert_eq!(read_unsigned(&chars_of("+007"), 100), Some(7));
    assert_eq!(read_unsigned(&chars_of("101"), 100), None);
    assert_eq!(read_unsigned(&chars_of(""), 100), None);
}

#[test]
fn strings_are_sorted_as_bytes_are() {
    let all = vec!["b".to_string(), "\u{e9}".to_string(), "B".to_string(), "ab".to_string()];
    let mut want = all.clone();
    want.sort();
    assert_eq!(sort_strings(all), want);
}

#[test]
fn references_stay_inside_the_document() {
    let root = parse_json("{\"$defs\":{\"a\":{\"type\":\"string\"}}}").unwrap();
    let a = resolve_local_ref("#/$defs/a", &root).unwrap();
    assert!(json_same(&a, &parse_json("{\"type\":\"string\"}").unwrap()));
    assert!(resolve_local_ref("#/$defs/b", &root).is_none());
    assert!(resolve_local_ref("https://x", &root).is_none());
}

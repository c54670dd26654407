//! Answers that come back piece by piece.
use spark_server::chat_fsm::events::{FsmEvent, StopReason};
use spark_server::chat_stream::adapter::{StreamingAdapter, UsageInputs};
use spark_server::chat_fsm::stepper::{
    Stepper, StepperConfig, ThinkingScanResult, ThinkingScanner, ToolDetector,
};
use spark_server::chat_stream::handlers::{handle_done, handle_token, StreamRules};
use spark_server::chat_stream::run::StreamRun;
use spark_server::chat_stream::state::{StreamPhase, StreamState};
use spark_server::chat_stream::wire::{refund, Wire};
use spark_server::openai::chat_response::{
    build_usage, ChatCompletionChunk, ChatCompletionResponse,
};
use spark_server::tools::{DetectorOutput, FunctionCall, LeakMarkers, ToolCall};

fn usage() -> UsageInputs<f64> {
    UsageInputs {
        completion_tokens: 3,
        time_to_first_token_ms: 1.0,
        response_tokens_per_second: 2.0,
        reasoning_tokens: 0,
        cached_prompt_tokens: 0,
        accepted_prediction_tokens: 0,
        rejected_prediction_tokens: 0,
    }
}

fn chunk(w: Wire<f64>) -> ChatCompletionChunk<f64, ()> {
    w.into_chunk("m", "id", 7)
}

#[test]
fn events_become_chunks_and_a_record() {
    let mut a: StreamingAdapter<f64> =
        StreamingAdapter::new("r".to_string(), true, Some(50), 10, 0.0);
    a.set_usage_inputs(usage());
    let mut out = Vec::new();
    a.translate(FsmEvent::ContentDelta("Hel".to_string()), &mut out);
    a.translate(FsmEvent::ContentDelta("lo".to_string()), &mut out);
    let end = a.translate(
        FsmEvent::Stopped { reason: StopReason::Upstream("stop".to_string()) },
        &mut out,
    );
    let ended = end.ended.unwrap();
    assert_eq!(ended.completion_tokens, 3);
    assert_eq!(ended.refund, 37);
    let mut streamed = String::new();
    let mut finish = None;
    for w in out {
        let c = chunk(w);
        assert_eq!(c.model, "m");
        for choice in &c.choices {
            if let Some(t) = &choice.delta.content {
                streamed.push_str(t);
            }
            if choice.finish_reason.is_some() {
                finish = choice.finish_reason.clone();
            }
        }
    }
    assert_eq!(streamed, "Hello");
    assert_eq!(finish.as_deref(), Some("stop"));
    assert_eq!(a.take_choice().content_str(), "Hello");
    assert_eq!(refund(5, 10, 10), 0);
}

#[test]
fn a_stopped_stream_is_silent() {
    let mut s = StreamState::new(false);
    assert_eq!(s.phase(), StreamPhase::Content);
    let mut out: Vec<Wire<f64>> = Vec::new();
    s.emit_content("a", &mut out);
    assert_eq!(out.len(), 1);
    s.mark_stopped();
    assert!(s.is_stopped());
    assert_eq!(s.phase(), StreamPhase::Stopped);
}

#[test]
fn a_call_is_put_together() {
    let mut s = StreamState::new(false);
    let mut out: Vec<Wire<f64>> = Vec::new();
    s.handle_tool_call_start("c".to_string(), "f".to_string(), 0, &mut out);
    s.handle_tool_call_delta("{\"a\":".to_string(), 0, &mut out);
    s.handle_tool_call_delta("1}".to_string(), 0, &mut out);
    let done = s.handle_tool_call_end(0).unwrap();
    assert_eq!(done, ("f".to_string(), "{\"a\":1}".to_string()));
    assert!(s.handle_tool_call_end(0).is_none());
    let m = s.into_message();
    assert_eq!(m.tool_calls.unwrap()[0].function.arguments, "{\"a\":1}");
}

fn call() -> ToolCall {
    ToolCall {
        id: "c".to_string(),
        call_type: "function".to_string(),
        function: FunctionCall { name: "f".to_string(), arguments: "{}".to_string() },
    }
}

/// Takes `|` for the end of the thinking.
struct BarScanner;

impl ThinkingScanner for BarScanner {
    fn process(&mut self, chunk: &str) -> ThinkingScanResult {
        match chunk.split_once('|') {
            Some((a, b)) => ThinkingScanResult::Transition {
                final_reasoning: a.to_string(),
                content_start: b.to_string(),
            },
            None => ThinkingScanResult::Continue { emit: chunk.to_string() },
        }
    }

    fn flush(&mut self) -> String {
        "...".to_string()
    }
}

/// Finds a call in each `!`, and holds back the last piece.
struct BangDetector {
    held: String,
    found: bool,
}

impl BangDetector {
    fn new() -> BangDetector {
        BangDetector { held: String::new(), found: false }
    }
}

impl ToolDetector for BangDetector {
    fn process(&mut self, delta: &str) -> Vec<DetectorOutput> {
        if delta == "!" {
            self.found = true;
            return vec![DetectorOutput::ToolCall(call(), 0)];
        }
        let before = std::mem::replace(&mut self.held, delta.to_string());
        vec![DetectorOutput::Content(before)]
    }

    fn flush(&mut self) -> Vec<DetectorOutput> {
        vec![DetectorOutput::Content(std::mem::take(&mut self.held))]
    }

    fn reset(&mut self) {
        self.held.clear();
    }

    fn has_tool_calls(&self) -> bool {
        self.found
    }
}

fn start(thinking: bool, tools: bool, stops: Vec<String>) -> StreamRun<f64, BarScanner, BangDetector> {
    let cfg = StepperConfig { enable_thinking: thinking, tools_active: tools, stop_strings: stops };
    StreamRun::new(
        Stepper::new(cfg, Some(BarScanner), BangDetector::new()),
        StreamingAdapter::new("r".to_string(), false, Some(20), 10, 0.0),
    )
}

fn said(items: Vec<Wire<f64>>) -> (String, String) {
    let (mut reasoning, mut content) = (String::new(), String::new());
    for w in items {
        match w {
            Wire::Reasoning(t) => reasoning.push_str(&t),
            Wire::Content(t) => content.push_str(&t),
            _ => {}
        }
    }
    (reasoning, content)
}

#[test]
fn a_run_streams_what_it_collects() {
    let mut run = start(true, false, Vec::new());
    let mut items = Vec::new();
    for piece in ["I ", "see|\nYes", ", sir"] {
        let s = run.take_token(Some(piece.to_string()));
        assert!(s.ended.is_none());
        items.extend(s.items);
    }
    assert!(run.take_token(None).items.is_empty());
    let last = run.take_done("stop".to_string(), usage());
    assert_eq!(last.ended.unwrap().refund, 7);
    items.extend(last.items);
    assert_eq!(said(items), ("I see".to_string(), "Yes, sir".to_string()));
    assert_eq!(run.take_choice().content_str(), "Yes, sir");
    assert!(run.take_token(Some("more".to_string())).items.is_empty());
}

#[test]
fn an_end_in_the_middle_of_thinking_keeps_the_rest() {
    let mut run = start(true, false, Vec::new());
    run.take_token(Some("hm".to_string()));
    let last = run.take_done("length".to_string(), usage());
    assert_eq!(said(last.items), ("...".to_string(), String::new()));
}

#[test]
fn a_run_ends_at_a_stop_string() {
    let mut run = start(false, false, vec!["END".to_string()]);
    let first = run.take_token(Some("a END b".to_string()));
    assert!(first.ended.is_some());
    assert_eq!(said(first.items).1, "a ");
    assert!(run.take_token(Some("c".to_string())).items.is_empty());
    assert!(run.take_done("stop".to_string(), usage()).items.is_empty());
}

#[test]
fn a_call_in_a_run_is_the_reason_it_ends() {
    let mut run = start(false, true, Vec::new());
    run.take_token(Some("Look".to_string()));
    let call = run.take_token(Some("!".to_string()));
    assert!(call.items.iter().any(|w| matches!(w, Wire::CallStart { name, .. } if name == "f")));
    let last = run.take_done("stop".to_string(), usage());
    let finish = last.items.into_iter().filter_map(|w| chunk(w).choices.pop()).last().unwrap();
    assert_eq!(finish.finish_reason.as_deref(), Some("tool_calls"));
}

fn rules() -> StreamRules {
    StreamRules {
        stops: Vec::new(),
        markers: LeakMarkers {
            orphan_open: vec!["<parameter=".to_string()],
            close: vec!["</parameter>".to_string()],
            envelope_open: Vec::new(),
            envelope_close: Vec::new(),
        },
        max_tool_calls: 12,
    }
}

/// Content that comes in these pieces, to its end, without a detector.
fn streamed_content(pieces: &[&str], rules: &StreamRules) -> (String, bool) {
    let mut s = StreamState::new(false);
    let mut scanner: Option<BarScanner> = None;
    let mut detector: Option<BangDetector> = None;
    let mut text = String::new();
    for p in pieces {
        let items: Vec<Wire<f64>> = handle_token(
            &mut s, &mut scanner, &mut detector, None, false, rules, Some(p.to_string()),
        );
        text.push_str(&said(items).1);
    }
    let stopped = s.is_stopped();
    let (items, _) = handle_done(
        &mut s, scanner, &mut detector, rules, "stop".to_string(), true, 1, None, "r", &usage(),
    );
    for w in items {
        for choice in chunk(w).choices {
            text.push_str(&choice.delta.content.unwrap_or_default());
        }
    }
    (text, stopped)
}

#[test]
fn leaked_tags_do_not_go_out() {
    let (text, stopped) =
        streamed_content(&["Done. <param", "eter=x>rm</parameter> Bye"], &rules());
    assert_eq!((text.as_str(), stopped), ("Done.  Bye", false));
    assert_eq!(streamed_content(&["a < b and ", "c"], &rules()).0, "a < b and c");
}

#[test]
fn a_stream_that_runs_in_circles_is_stopped() {
    let line = "I will now check the file again.\n";
    let mut bare = rules();
    bare.markers.orphan_open.clear();
    let (text, stopped) = streamed_content(&[line, line, line, line, line], &bare);
    assert!(stopped);
    assert_eq!(text, line.repeat(4));
}

#[test]
fn a_call_too_many_stops_a_stream() {
    let mut few = rules();
    few.max_tool_calls = 0;
    let mut s = StreamState::new(false);
    let mut scanner: Option<BarScanner> = None;
    let mut detector = Some(BangDetector::new());
    let mut say = |s: &mut StreamState, t: &str| -> Vec<Wire<f64>> {
        handle_token(s, &mut scanner, &mut detector, None, false, &few, Some(t.to_string()))
    };
    say(&mut s, "Look");
    assert!(!s.is_stopped());
    let call = say(&mut s, "!");
    assert!(call.iter().any(|w| matches!(w, Wire::CallStart { .. })));
    assert!(s.is_stopped());
    assert!(say(&mut s, "more").is_empty());
}

#[test]
fn a_stopped_stream_ends_without_content() {
    let mut s = StreamState::new(false);
    let scanner: Option<BarScanner> = None;
    let mut detector = Some(BangDetector::new());
    detector.as_mut().unwrap().process("held");
    s.mark_stopped();
    let (items, _) = handle_done(
        &mut s, scanner, &mut detector, &rules(), "stop".to_string(), false, 1, None, "r", &usage(),
    );
    assert_eq!(items.len(), 1);
    assert_eq!(said(items), (String::new(), String::new()));
}

#[test]
fn the_stop_string_that_stands_first_ends_a_stream() {
    let mut stops = rules();
    stops.stops = vec!["B".to_string(), "A".to_string()];
    assert_eq!(streamed_content(&["xAyB"], &stops), ("x".to_string(), true));
}

#[test]
fn text_before_a_stop_string_goes_out_whole() {
    let mut stops = rules();
    stops.stops = vec!["END".to_string()];
    let (text, stopped) = streamed_content(&["a ", "b END c"], &stops);
    assert_eq!((text.as_str(), stopped), ("a b ", true));
}

#[test]
fn tokens_and_their_end_become_stream_items() {
    let mut s = StreamState::new(false);
    let mut scanner: Option<BarScanner> = None;
    let mut detector = Some(BangDetector::new());
    let none: Vec<Wire<f64>> =
        handle_token(&mut s, &mut scanner, &mut detector, None, false, &rules(), None);
    assert!(none.is_empty());
    let held: Vec<Wire<f64>> = handle_token(
        &mut s, &mut scanner, &mut detector, None, false, &rules(), Some("Hi".to_string()),
    );
    assert_eq!(said(held).1, "");
    let (items, refund) = handle_done(
        &mut s, scanner, &mut detector, &rules(), "stop".to_string(), true, 10, Some(20), "r",
        &usage(),
    );
    assert_eq!(refund, 7);
    let (mut text, mut usages) = (String::new(), 0);
    for w in items {
        let c = chunk(w);
        if c.usage.is_some() {
            usages += 1;
        }
        for choice in c.choices {
            text.push_str(&choice.delta.content.unwrap_or_default());
        }
    }
    assert_eq!(text, "Hi");
    assert_eq!(usages, 1);
}

#[test]
fn single_chunks() {
    let role: ChatCompletionChunk<f64, ()> = ChatCompletionChunk::role_chunk("m", "id", 7);
    assert_eq!(role.choices[0].delta.role.as_deref(), Some("assistant"));
    assert_eq!((role.id.as_str(), role.created), ("id", 7));
    let no: ChatCompletionChunk<f64, ()> =
        ChatCompletionChunk::refusal_chunk("m", "id", 7, "I can't.".to_string());
    assert_eq!(no.choices[0].delta.refusal.as_deref(), Some("I can't."));
    assert_eq!(no.with_token_ids(vec![4, 5]).choices[0].token_ids, vec![4, 5]);
}

#[test]
fn a_whole_answer_with_calls() {
    let used = build_usage(10, 2, 1.0, 2.0, 0, 0, 0, 0, "r".to_string());
    let r: ChatCompletionResponse<f64, ()> = ChatCompletionResponse::with_tool_calls(
        "id".to_string(), 7, "m", None, None, vec![call()], used,
    );
    assert_eq!(r.choices[0].finish_reason, "tool_calls");
    assert_eq!(r.choices[0].message.tool_calls.as_ref().unwrap()[0].id, "c");
    assert_eq!(r.usage.total_tokens, 12);
}

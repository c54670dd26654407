//! Completions, from decoded text to the choice that the client sees.
use spark_server::chat_fsm::assemble::{assemble_choice, compute_finish_reason};
use spark_server::chat_fsm::choice_builder::ChoiceBuilder;
use spark_server::chat_fsm::events::{FsmEvent, StopReason};
use spark_server::chat_fsm::stepper::{
    Stepper, StepperConfig, ThinkingScanResult, ThinkingScanner, ToolDetector,
};
use spark_server::openai::types::ChatChoice;
use spark_server::tools::{DetectorOutput, FunctionCall, ToolCall};

fn tc(id: &str, name: &str, args: &str) -> ToolCall {
    ToolCall {
        id: id.to_string(),
        call_type: "function".to_string(),
        function: FunctionCall { name: name.to_string(), arguments: args.to_string() },
    }
}

fn choice_of(b: ChoiceBuilder) -> ChatChoice<()> {
    b.into_chat_choice(None, None)
}

/// Looks for `</think>`, and holds back what may be the beginning of it.
struct TagScanner {
    held: String,
}

impl ThinkingScanner for TagScanner {
    fn process(&mut self, chunk: &str) -> ThinkingScanResult {
        self.held.push_str(chunk);
        match self.held.find("</think>") {
            Some(i) => {
                let final_reasoning = self.held[..i].to_string();
                let content_start = self.held[i + 8..].to_string();
                self.held.clear();
                ThinkingScanResult::Transition { final_reasoning, content_start }
            }
            None => {
                let keep = if self.held.len() > 7 { self.held.len() - 7 } else { 0 };
                let emit = self.held[..keep].to_string();
                self.held = self.held[keep..].to_string();
                ThinkingScanResult::Continue { emit }
            }
        }
    }

    fn flush(&mut self) -> String {
        std::mem::take(&mut self.held)
    }
}

/// Reads `<tool_call>` envelopes with `<function=..>` and `<parameter=..>`.
struct EnvelopeDetector {
    held: String,
    found: usize,
}

fn between<'a>(s: &'a str, open: &str, close: &str) -> Option<(&'a str, &'a str)> {
    let i = s.find(open)? + open.len();
    let j = s[i..].find(close)? + i;
    Some((&s[i..j], &s[j + close.len()..]))
}

impl ToolDetector for EnvelopeDetector {
    fn process(&mut self, delta: &str) -> Vec<DetectorOutput> {
        self.held.push_str(delta);
        let mut out = Vec::new();
        loop {
            match self.held.find("<tool_call>") {
                None => {
                    if !self.held.is_empty() {
                        out.push(DetectorOutput::Content(std::mem::take(&mut self.held)));
                    }
                    return out;
                }
                Some(i) => {
                    let end = match self.held.find("</tool_call>") {
                        Some(e) => e,
                        None => return out,
                    };
                    if i > 0 {
                        out.push(DetectorOutput::Content(self.held[..i].to_string()));
                    }
                    let body = self.held[i..end].to_string();
                    self.held = self.held[end + 12..].to_string();
                    let (name, mut rest) = between(&body, "<function=", ">").unwrap();
                    let mut args = Vec::new();
                    while let Some((key, tail)) = between(rest, "<parameter=", ">") {
                        let j = tail.find("</parameter>").unwrap();
                        args.push(format!("\"{}\":\"{}\"", key, &tail[..j]));
                        rest = &tail[j..];
                    }
                    let idx = self.found;
                    self.found += 1;
                    out.push(DetectorOutput::ToolCallStart {
                        id: format!("call_{}", idx),
                        name: name.to_string(),
                        idx,
                    });
                    let args = format!("{{{}}}", args.join(","));
                    out.push(DetectorOutput::ToolCallDelta { args, idx });
                    out.push(DetectorOutput::ToolCallEnd { idx });
                }
            }
        }
    }

    fn flush(&mut self) -> Vec<DetectorOutput> {
        if self.held.is_empty() {
            Vec::new()
        } else {
            vec![DetectorOutput::Content(std::mem::take(&mut self.held))]
        }
    }

    fn reset(&mut self) {
        self.held.clear();
    }

    fn has_tool_calls(&self) -> bool {
        self.found > 0
    }
}

fn stepper(cfg: StepperConfig, thinks: bool) -> Stepper<TagScanner, EnvelopeDetector> {
    let scanner = if thinks { Some(TagScanner { held: String::new() }) } else { None };
    Stepper::new(cfg, scanner, EnvelopeDetector { held: String::new(), found: 0 })
}

fn drive_stepper(cfg: StepperConfig, thinks: bool, chunks: &[&str]) -> Vec<FsmEvent> {
    let mut s = stepper(cfg, thinks);
    let mut out = Vec::new();
    for chunk in chunks {
        out.extend(s.step_token(Some(chunk.to_string())));
    }
    out.extend(s.flush("stop".to_string()));
    out
}

#[test]
fn choice_builder_accumulates_content_and_reasoning() {
    let mut b = ChoiceBuilder::new(0);
    b.apply(FsmEvent::ReasoningDelta("First thought. ".to_string()));
    b.apply(FsmEvent::ReasoningDelta("Second thought.".to_string()));
    b.apply(FsmEvent::ContentDelta("Hello, ".to_string()));
    b.apply(FsmEvent::ContentDelta("world!".to_string()));
    b.apply(FsmEvent::Stopped { reason: StopReason::Upstream("stop".to_string()) });

    assert_eq!(b.reasoning_str(), "First thought. Second thought.");
    assert_eq!(b.content_str(), "Hello, world!");
    assert!(b.tool_calls().is_empty());

    let choice = choice_of(b);
    assert_eq!(choice.index, 0);
    assert_eq!(choice.finish_reason, "stop");
    assert_eq!(
        choice.message.reasoning_content.as_deref(),
        Some("First thought. Second thought.")
    );
    assert_eq!(choice.message.reasoning.as_deref(), Some("First thought. Second thought."));
    assert_eq!(choice.message.content.as_deref(), Some("Hello, world!"));
    assert!(choice.message.tool_calls.is_none());
}

#[test]
fn choice_builder_assembles_tool_call_from_start_delta_end() {
    let mut b = ChoiceBuilder::new(0);
    b.apply(FsmEvent::ToolCallStart {
        id: "call_xyz".to_string(),
        name: "Write".to_string(),
        idx: 0,
    });
    b.apply(FsmEvent::ToolCallArgDelta {
        args: "{\"path\":\"/tmp/a.txt\"".to_string(),
        idx: 0,
    });
    b.apply(FsmEvent::ToolCallArgDelta { args: ",\"content\":\"hi\"}".to_string(), idx: 0 });
    b.apply(FsmEvent::ToolCallEnd { idx: 0 });
    b.apply(FsmEvent::Stopped { reason: StopReason::Upstream("stop".to_string()) });

    assert_eq!(b.tool_calls().len(), 1);
    assert_eq!(b.tool_calls()[0].id, "call_xyz");
    assert_eq!(b.tool_calls()[0].function.name, "Write");
    assert_eq!(
        b.tool_calls()[0].function.arguments,
        "{\"path\":\"/tmp/a.txt\",\"content\":\"hi\"}"
    );

    let choice = choice_of(b);
    assert_eq!(choice.finish_reason, "tool_calls");
    assert!(choice.message.content.is_none());
    assert_eq!(choice.message.tool_calls.as_ref().unwrap().len(), 1);
}

#[test]
fn choice_builder_keeps_content_when_present_alongside_tool_calls() {
    let mut b = ChoiceBuilder::new(0);
    b.apply(FsmEvent::ContentDelta("Calling Write: ".to_string()));
    b.apply(FsmEvent::ToolCallStart {
        id: "call_a".to_string(),
        name: "Write".to_string(),
        idx: 0,
    });
    b.apply(FsmEvent::ToolCallArgDelta { args: "{}".to_string(), idx: 0 });
    b.apply(FsmEvent::ToolCallEnd { idx: 0 });
    b.apply(FsmEvent::Stopped { reason: StopReason::Upstream("stop".to_string()) });

    let choice = choice_of(b);
    assert_eq!(choice.finish_reason, "tool_calls");
    assert_eq!(choice.message.content.as_deref(), Some("Calling Write: "));
    assert!(choice.message.tool_calls.is_some());
}

#[test]
fn choice_builder_stop_string_reports_stop_finish_reason() {
    let mut b = ChoiceBuilder::new(0);
    b.apply(FsmEvent::ContentDelta("hello".to_string()));
    b.apply(FsmEvent::Stopped {
        reason: StopReason::StopString { matched: "</end>".to_string() },
    });
    let choice = choice_of(b);
    assert_eq!(choice.finish_reason, "stop");
}

#[test]
fn choice_builder_grammar_terminated_promotes_to_tool_calls() {
    let mut b = ChoiceBuilder::new(0);
    b.apply(FsmEvent::ToolCallStart {
        id: "call_g".to_string(),
        name: "Bash".to_string(),
        idx: 0,
    });
    b.apply(FsmEvent::ToolCallArgDelta { args: "{\"command\":\"ls\"}".to_string(), idx: 0 });
    b.apply(FsmEvent::ToolCallEnd { idx: 0 });
    b.apply(FsmEvent::Stopped { reason: StopReason::GrammarTerminated });

    let choice = choice_of(b);
    assert_eq!(choice.finish_reason, "tool_calls");
}

#[test]
fn choice_builder_assembles_multiple_tool_calls_in_emit_order() {
    let mut b = ChoiceBuilder::new(0);
    b.apply(FsmEvent::ToolCallStart { id: "call_0".to_string(), name: "a".to_string(), idx: 0 });
    b.apply(FsmEvent::ToolCallArgDelta { args: "{\"x\":1}".to_string(), idx: 0 });
    b.apply(FsmEvent::ToolCallEnd { idx: 0 });
    b.apply(FsmEvent::ToolCallStart { id: "call_1".to_string(), name: "b".to_string(), idx: 1 });
    b.apply(FsmEvent::ToolCallArgDelta { args: "{\"y\":2}".to_string(), idx: 1 });
    b.apply(FsmEvent::ToolCallEnd { idx: 1 });
    b.apply(FsmEvent::Stopped { reason: StopReason::Upstream("stop".to_string()) });

    let calls = b.tool_calls();
    assert_eq!(calls.len(), 2);
    assert_eq!(calls[0].function.name, "a");
    assert_eq!(calls[1].function.name, "b");
}

#[test]
fn finish_reason_precedence() {
    assert_eq!(
        compute_finish_reason(Some(&StopReason::Upstream("length".to_string())), true),
        "tool_calls"
    );
    assert_eq!(
        compute_finish_reason(Some(&StopReason::StopString { matched: "x".to_string() }), true),
        "tool_calls"
    );
    assert_eq!(compute_finish_reason(Some(&StopReason::GrammarTerminated), false), "tool_calls");
    assert_eq!(
        compute_finish_reason(Some(&StopReason::StopString { matched: "x".to_string() }), false),
        "stop"
    );
    assert_eq!(
        compute_finish_reason(Some(&StopReason::Upstream("length".to_string())), false),
        "length"
    );
    assert_eq!(
        compute_finish_reason(Some(&StopReason::Upstream("timeout".to_string())), false),
        "timeout"
    );
    assert_eq!(compute_finish_reason(None, false), "stop");
}

#[test]
fn fsm_event_equality_round_trip() {
    let a = FsmEvent::ToolCallStart {
        id: "call_a".to_string(),
        name: "Write".to_string(),
        idx: 0,
    };
    let b = FsmEvent::ToolCallStart {
        id: "call_a".to_string(),
        name: "Write".to_string(),
        idx: 0,
    };
    assert_eq!(a, b);

    let c = FsmEvent::Stopped { reason: StopReason::StopString { matched: "END".to_string() } };
    let d = FsmEvent::Stopped { reason: StopReason::StopString { matched: "END".to_string() } };
    assert_eq!(c, d);
}

#[test]
fn tool_call_helper_does_not_warn() {
    let t = tc("call_x", "X", "{}");
    assert_eq!(t.id, "call_x");
    assert_eq!(t.function.name, "X");
}

#[test]
fn d3_streaming_blocking_qwen_thinking_then_content() {
    let cfg = StepperConfig { enable_thinking: true, tools_active: false, stop_strings: vec![] };
    let chunks =
        ["The user said hi. ", "I'll greet back.", "</think>", "\n\n", "Hello", "!"];
    let events = drive_stepper(cfg, true, &chunks);

    let reasoning_concat: String = events
        .iter()
        .filter_map(|e| match e {
            FsmEvent::ReasoningDelta(s) => Some(s.as_str()),
            _ => None,
        })
        .collect();
    let content_concat: String = events
        .iter()
        .filter_map(|e| match e {
            FsmEvent::ContentDelta(s) => Some(s.as_str()),
            _ => None,
        })
        .collect();
    let stop_count = events.iter().filter(|e| matches!(e, FsmEvent::Stopped { .. })).count();
    assert_eq!(reasoning_concat, "The user said hi. I'll greet back.");
    assert_eq!(content_concat, "Hello!");
    assert_eq!(stop_count, 1);

    let mut streaming = ChoiceBuilder::new(0);
    let mut blocking = ChoiceBuilder::new(0);
    for ev in &events {
        streaming.apply(ev.clone());
        blocking.apply(ev.clone());
    }
    let streaming_choice = choice_of(streaming);
    let blocking_choice = choice_of(blocking);
    assert_eq!(streaming_choice, blocking_choice);

    assert_eq!(streaming_choice.message.role, "assistant");
    assert_eq!(
        streaming_choice.message.reasoning_content.as_deref(),
        Some("The user said hi. I'll greet back.")
    );
    assert_eq!(streaming_choice.message.content.as_deref(), Some("Hello!"));
    assert!(streaming_choice.message.tool_calls.is_none());
    assert_eq!(streaming_choice.finish_reason, "stop");
}

#[test]
fn d3_streaming_blocking_qwen_thinking_then_tool_call() {
    let cfg = StepperConfig { enable_thinking: true, tools_active: true, stop_strings: vec![] };
    let chunks = [
        "Need to write a file.",
        "</think>",
        "\n\n",
        "<tool_call>\n",
        "<function=Write>\n",
        "<parameter=path>/tmp/a.txt</parameter>\n",
        "<parameter=content>hi</parameter>\n",
        "</function>\n",
        "</tool_call>",
    ];
    let events = drive_stepper(cfg, true, &chunks);

    let tool_starts: Vec<&FsmEvent> =
        events.iter().filter(|e| matches!(e, FsmEvent::ToolCallStart { .. })).collect();
    let tool_ends: Vec<&FsmEvent> =
        events.iter().filter(|e| matches!(e, FsmEvent::ToolCallEnd { .. })).collect();
    assert_eq!(tool_starts.len(), 1);
    assert_eq!(tool_ends.len(), 1);
    if let FsmEvent::ToolCallStart { name, .. } = tool_starts[0] {
        assert_eq!(name, "Write");
    }

    let mut streaming = ChoiceBuilder::new(0);
    let mut blocking = ChoiceBuilder::new(0);
    for ev in &events {
        streaming.apply(ev.clone());
        blocking.apply(ev.clone());
    }
    let streaming_choice = choice_of(streaming);
    let blocking_choice = choice_of(blocking);
    assert_eq!(streaming_choice, blocking_choice);

    assert_eq!(
        streaming_choice.message.reasoning_content.as_deref(),
        Some("Need to write a file.")
    );
    assert!(streaming_choice.message.content.is_none());
    let calls = streaming_choice.message.tool_calls.as_ref().unwrap();
    assert_eq!(calls.len(), 1);
    assert_eq!(calls[0].function.name, "Write");
    let args: serde_json::Value =
        serde_json::from_str(&calls[0].function.arguments).expect("args must be valid JSON");
    assert_eq!(args["path"], "/tmp/a.txt");
    assert_eq!(args["content"], "hi");
    assert_eq!(streaming_choice.finish_reason, "tool_calls");
}

#[test]
fn d3_stop_string_in_tool_envelope_completes_call_first() {
    let cfg = StepperConfig {
        enable_thinking: false,
        tools_active: true,
        stop_strings: vec!["STOP".to_string()],
    };
    let chunks = [
        "<tool_call>\n",
        "<function=Run>\n",
        "<parameter=cmd>echo STOP</parameter>\n",
        "</function>\n",
        "</tool_call>",
        "trailing STOP after envelope",
    ];
    let events = drive_stepper(cfg, false, &chunks);

    let end_idx = events
        .iter()
        .position(|e| matches!(e, FsmEvent::ToolCallEnd { .. }))
        .expect("tool call must complete before stop");
    let stopped_idx = events
        .iter()
        .position(|e| matches!(e, FsmEvent::Stopped { .. }))
        .expect("FSM must terminate");
    assert!(end_idx < stopped_idx);

    if let FsmEvent::Stopped { reason } = &events[stopped_idx] {
        match reason {
            StopReason::StopString { matched } => assert_eq!(matched, "STOP"),
            other => panic!("expected StopReason::StopString, got {other:?}"),
        }
    }
}

#[test]
fn d3_content_only_no_thinking_no_tools() {
    let cfg = StepperConfig { enable_thinking: false, tools_active: false, stop_strings: vec![] };
    let chunks = ["Hello, ", "world", "!"];
    let events = drive_stepper(cfg, false, &chunks);
    let deltas: Vec<&str> = events
        .iter()
        .filter_map(|e| match e {
            FsmEvent::ContentDelta(s) => Some(s.as_str()),
            _ => None,
        })
        .collect();
    assert_eq!(deltas, vec!["Hello, ", "world", "!"]);
    assert!(events.iter().any(
        |e| matches!(e, FsmEvent::Stopped { reason: StopReason::Upstream(s) } if s == "stop")
    ));
}

#[test]
fn assembled_choice_equals_streamed_choice() {
    let chunks = ["Let me see", ".</think>", " \n", "It is ", "42", "\n"];
    let cfg = StepperConfig { enable_thinking: true, tools_active: true, stop_strings: vec![] };
    let events = drive_stepper(cfg, true, &chunks);
    let mut streamed = ChoiceBuilder::new(3);
    for ev in events {
        streamed.apply(ev);
    }
    let cfg = StepperConfig { enable_thinking: true, tools_active: true, stop_strings: vec![] };
    let decoded = chunks.iter().map(|c| Some(c.to_string())).collect();
    let whole = assemble_choice(stepper(cfg, true), decoded, "stop".to_string(), 3);
    assert_eq!(choice_of(streamed), choice_of(whole));
}

#[test]
fn nothing_follows_the_stop() {
    let cfg = StepperConfig {
        enable_thinking: false,
        tools_active: false,
        stop_strings: vec!["END".to_string()],
    };
    let mut s = stepper(cfg, false);
    let first = s.step_token(Some("fine END not fine".to_string()));
    assert_eq!(
        first,
        vec![
            FsmEvent::ContentDelta("fine ".to_string()),
            FsmEvent::Stopped { reason: StopReason::StopString { matched: "END".to_string() } },
        ]
    );
    assert!(s.step_token(Some("more".to_string())).is_empty());
    assert!(s.flush("length".to_string()).is_empty());
}

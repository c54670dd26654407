//! The phases of a stream, and what is kept while it runs.
use vstd::prelude::*;
use std::collections::HashMap;
use crate::chat_fsm::stepper::AccView;
use crate::chat_fsm::stepper::ToolCallAcc;
use crate::failures::watchdog::{bump_f12_tool_call_count, check_loop_watchdog};
use crate::failures::watchdog::{repeats, window};
use crate::openai::types::ChatMessage;
use crate::openai::types::ChatMessageView;
use crate::sanitizer::{flush_content_sanitizer, sanitize_content_chunk};
use crate::sanitizer::{looks_partial, sanitized};
use crate::text::{chars_of, own, string_of_all, CharSet};
use crate::tools::{FunctionCall, LeakMarkers, ToolCall};
use crate::tools::{call_views, MarkerView, ToolCallView};
use crate::trim::trim_start_chars;
use crate::trim::trim_start;

verus! {

/// Where the decoded text goes.
#[derive(Debug, Clone, Copy, PartialEq, Eq, Structural)]
pub enum StreamPhase {
    /// Into the reasoning.
    Thinking,
    /// Into the content.
    Content,
    /// Nowhere: the stream has ended.
    Stopped,
}

/// The state of a stream.
#[derive(Debug)]
pub struct StreamState {
    phase: StreamPhase,
    content_started: bool,
    accumulated_content: String,
    dump_content: String,
    dump_reasoning_content: String,
    dump_tool_calls: Vec<ToolCall>,
    streaming_tool_args: HashMap<usize, ToolCallAcc>,
    tag_scan_buf: String,
    suppressing_param_leak: bool,
    inside_envelope: bool,
    loop_scan_buf: String,
    loop_watchdog_triggered: bool,
}

/// What a [`StreamState`] holds.
#[verifier::ext_equal]
pub struct StateView {
    /// The phase.
    pub phase: StreamPhase,
    /// Whether some content other than leading white space has come.
    pub content_started: bool,
    /// The content that stop strings were looked for in.
    pub accumulated: Seq<char>,
    /// The content that went out.
    pub content: Seq<char>,
    /// The reasoning that went out.
    pub reasoning: Seq<char>,
    /// The calls that went out.
    pub calls: Seq<ToolCallView>,
    /// The calls that have begun and not ended.
    pub pending: Map<usize, AccView>,
    /// The content that is held back because a leaked tag may begin in it.
    pub tag_buf: Seq<char>,
    /// Whether a leak is being dropped.
    pub suppressing: bool,
    /// Whether the content is inside a legitimate envelope.
    pub inside: bool,
    /// The latest content that went out.
    pub loop_buf: Seq<char>,
    /// Whether the content ran in circles.
    pub looped: bool,
}

impl View for StreamState {
    type V = StateView;

    closed spec fn view(&self) -> StateView {
        StateView {
            phase: self.phase,
            content_started: self.content_started,
            accumulated: self.accumulated_content@,
            content: self.dump_content@,
            reasoning: self.dump_reasoning_content@,
            calls: call_views(self.dump_tool_calls@),
            pending: self.streaming_tool_args@.map_values(|a: ToolCallAcc| a@),
            tag_buf: self.tag_scan_buf@,
            suppressing: self.suppressing_param_leak,
            inside: self.inside_envelope,
            loop_buf: self.loop_scan_buf@,
            looped: self.loop_watchdog_triggered,
        }
    }
}

/// A call with its parts.
pub open spec fn whole_call(a: AccView) -> ToolCallView {
    ToolCallView { id: a.id, call_type: "function"@, name: a.name, arguments: a.args }
}

impl StateView {
    /// The start of a stream.
    pub open spec fn start(enable_thinking: bool) -> StateView {
        StateView {
            phase: if enable_thinking {
                StreamPhase::Thinking
            } else {
                StreamPhase::Content
            },
            content_started: !enable_thinking,
            accumulated: Seq::empty(),
            content: Seq::empty(),
            reasoning: Seq::empty(),
            calls: Seq::empty(),
            pending: Map::empty(),
            tag_buf: Seq::empty(),
            suppressing: false,
            inside: false,
            loop_buf: Seq::empty(),
            looped: false,
        }
    }

    /// A piece of content without leaked tags, and the state that stays.
    pub open spec fn filtered(self, text: Seq<char>, m: MarkerView) -> (StateView, Seq<char>) {
        let s = sanitized(m, text, self.tag_buf, self.suppressing, self.inside);
        (
            StateView { tag_buf: s.buf, suppressing: s.suppressing, inside: s.inside, ..self },
            s.out,
        )
    }

    /// What is still held back of the content, at its end.
    pub open spec fn held_back(self, m: MarkerView) -> Seq<char> {
        if self.suppressing || looks_partial(m, self.tag_buf) {
            Seq::empty()
        } else {
            self.tag_buf
        }
    }

    /// Nothing is held back any more.
    pub open spec fn let_go(self) -> StateView {
        StateView { tag_buf: Seq::empty(), suppressing: false, ..self }
    }

    /// Content is watched for running in circles, which ends the stream.
    pub open spec fn watched(self, text: Seq<char>) -> StateView {
        if self.looped || text.len() == 0 {
            self
        } else {
            let w = window(self.loop_buf + text);
            let s = StateView { loop_buf: w, looped: repeats(w), ..self };
            if repeats(w) {
                s.stopped()
            } else {
                s
            }
        }
    }

    /// More than `max` calls end the stream.
    pub open spec fn counted(self, max: int) -> StateView {
        if self.calls.len() > max {
            self.stopped()
        } else {
            self
        }
    }

    /// From thinking to content; from elsewhere nothing changes.
    pub open spec fn in_content(self) -> StateView {
        if self.phase == StreamPhase::Thinking {
            StateView { phase: StreamPhase::Content, ..self }
        } else {
            self
        }
    }

    /// From content to thinking; from elsewhere nothing changes.
    pub open spec fn in_thinking(self) -> StateView {
        if self.phase == StreamPhase::Content {
            StateView { phase: StreamPhase::Thinking, content_started: false, ..self }
        } else {
            self
        }
    }

    /// The end.
    pub open spec fn stopped(self) -> StateView {
        StateView { phase: StreamPhase::Stopped, ..self }
    }

    /// The message that went out.
    pub open spec fn message(self) -> ChatMessageView {
        ChatMessageView {
            role: "assistant"@,
            reasoning_content: if self.reasoning.len() == 0 {
                None
            } else {
                Some(self.reasoning)
            },
            reasoning: None,
            content: if self.content.len() == 0 {
                None
            } else {
                Some(self.content)
            },
            tool_calls: if self.calls.len() == 0 {
                None
            } else {
                Some(self.calls)
            },
            annotations: None,
            refusal: None,
        }
    }
}

impl StreamState {
    /// The start of a stream: in thinking where it is asked for, else in
    /// content, of which then nothing is trimmed.
    pub fn new(enable_thinking: bool) -> (r: StreamState)
        ensures
            r@ == StateView::start(enable_thinking),
    {
        let r = StreamState {
            phase: if enable_thinking {
                StreamPhase::Thinking
            } else {
                StreamPhase::Content
            },
            content_started: !enable_thinking,
            accumulated_content: String::new(),
            dump_content: String::new(),
            dump_reasoning_content: String::new(),
            dump_tool_calls: Vec::new(),
            streaming_tool_args: HashMap::new(),
            tag_scan_buf: String::new(),
            suppressing_param_leak: false,
            inside_envelope: false,
            loop_scan_buf: String::new(),
            loop_watchdog_triggered: false,
        };
        assert(r@ =~= StateView::start(enable_thinking));
        r
    }

    /// The phase.
    pub fn phase(&self) -> (r: StreamPhase)
        ensures
            r == self@.phase,
    {
        self.phase
    }

    /// Whether the text is reasoning.
    pub fn is_thinking(&self) -> (r: bool)
        ensures
            r == (self@.phase == StreamPhase::Thinking),
    {
        self.phase == StreamPhase::Thinking
    }

    /// Whether the stream has ended.
    pub fn is_stopped(&self) -> (r: bool)
        ensures
            r == (self@.phase == StreamPhase::Stopped),
    {
        self.phase == StreamPhase::Stopped
    }

    /// From thinking to content. Says whether it did: the caller is to drop
    /// its scanner and reset its detector.
    pub fn enter_content(&mut self) -> (r: bool)
        ensures
            final(self)@ == old(self)@.in_content(),
            r == (old(self)@.phase == StreamPhase::Thinking),
    {
        match self.phase {
            StreamPhase::Thinking => {
                self.phase = StreamPhase::Content;
                true
            },
            _ => false,
        }
    }

    /// From content back to thinking.
    pub fn enter_thinking(&mut self)
        ensures
            final(self)@ == old(self)@.in_thinking(),
    {
        match self.phase {
            StreamPhase::Content => {
                self.phase = StreamPhase::Thinking;
                self.content_started = false;
            },
            _ => {},
        }
    }

    /// Ends the stream.
    pub fn mark_stopped(&mut self)
        ensures
            final(self)@ == old(self)@.stopped(),
    {
        self.phase = StreamPhase::Stopped;
    }

    /// Takes leaked tags out of a piece of content.
    pub fn filter(&mut self, text: &str, markers: &LeakMarkers) -> (r: String)
        requires
            markers@.wf(),
        ensures
            (final(self)@, r@) == old(self)@.filtered(text@, markers@),
    {
        sanitize_content_chunk(
            text,
            &mut self.tag_scan_buf,
            &mut self.suppressing_param_leak,
            &mut self.inside_envelope,
            markers,
        )
    }

    /// Gives out what is held back of the content, at its end.
    pub fn release_tail(&mut self, markers: &LeakMarkers) -> (r: String)
        ensures
            r@ == old(self)@.held_back(markers@),
            final(self)@ == old(self)@.let_go(),
    {
        flush_content_sanitizer(&mut self.tag_scan_buf, &mut self.suppressing_param_leak, markers)
    }

    /// Watches content for running in circles.
    pub fn watch(&mut self, text: &str)
        ensures
            final(self)@ == old(self)@.watched(text@),
    {
        let triggered = self.loop_watchdog_triggered;
        if check_loop_watchdog(text, &mut self.loop_scan_buf, triggered) {
            self.loop_watchdog_triggered = true;
            self.mark_stopped();
        }
    }

    /// Ends the stream where there were more than `max` calls.
    pub fn count_calls(&mut self, max: usize)
        ensures
            final(self)@ == old(self)@.counted(max as int),
    {
        let mut count = self.dump_tool_calls.len();
        if count > 0 {
            count = count - 1;
            let mut stop = false;
            bump_f12_tool_call_count(&mut count, max, &mut stop);
            if stop {
                self.mark_stopped();
            }
        }
    }

    /// Keeps content that goes out.
    pub fn record_content(&mut self, text: &str)
        ensures
            final(self)@ == (StateView { content: old(self)@.content + text@, ..old(self)@ }),
    {
        self.dump_content.append(text);
    }

    /// Keeps reasoning that goes out.
    pub fn record_reasoning(&mut self, text: &str)
        ensures
            final(self)@ == (StateView { reasoning: old(self)@.reasoning + text@, ..old(self)@ }),
    {
        self.dump_reasoning_content.append(text);
    }

    /// Keeps a call that goes out.
    pub fn record_tool_call(&mut self, call: ToolCall)
        ensures
            final(self)@ == (StateView { calls: old(self)@.calls.push(call@), ..old(self)@ }),
    {
        self.dump_tool_calls.push(call);
        assert(self@ =~= (StateView { calls: old(self)@.calls.push(call@), ..old(self)@ }));
    }

    /// A call begins.
    pub fn begin_call(&mut self, id: String, name: String, idx: usize)
        ensures
            final(self)@ == (StateView {
                pending: old(self)@.pending.insert(
                    idx,
                    AccView { id: id@, name: name@, args: Seq::empty() },
                ),
                ..old(self)@
            }),
    {
        let acc = ToolCallAcc { id, name, args: String::new() };
        self.streaming_tool_args.insert(idx, acc);
        assert(self@ =~= (StateView {
            pending: old(self)@.pending.insert(
                idx,
                AccView { id: id@, name: name@, args: Seq::empty() },
            ),
            ..old(self)@
        }));
    }

    /// Some arguments of a call come. A call that has not begun is left alone.
    pub fn extend_call(&mut self, args: &str, idx: usize)
        ensures
            final(self)@ == (StateView {
                pending: if old(self)@.pending.contains_key(idx) {
                    let a = old(self)@.pending[idx];
                    old(self)@.pending.insert(idx, AccView { args: a.args + args@, ..a })
                } else {
                    old(self)@.pending
                },
                ..old(self)@
            }),
    {
        if let Some(mut acc) = self.streaming_tool_args.remove(&idx) {
            acc.args.append(args);
            self.streaming_tool_args.insert(idx, acc);
        }
        assert(self@.pending =~= (if old(self)@.pending.contains_key(idx) {
            let a = old(self)@.pending[idx];
            old(self)@.pending.insert(idx, AccView { args: a.args + args@, ..a })
        } else {
            old(self)@.pending
        }));
    }

    /// A call ends: it is kept as it was put together. Hands it out for the
    /// log. A call that has not begun is left alone.
    pub fn end_call(&mut self, idx: usize) -> (r: Option<(String, String)>)
        ensures
            if old(self)@.pending.contains_key(idx) {
                let a = old(self)@.pending[idx];
                &&& final(self)@ == (StateView {
                    pending: old(self)@.pending.remove(idx),
                    calls: old(self)@.calls.push(whole_call(a)),
                    ..old(self)@
                })
                &&& r matches Some((name, args)) && name@ == a.name && args@ == a.args
            } else {
                r is None && final(self)@ == old(self)@
            },
    {
        match self.streaming_tool_args.remove(&idx) {
            Some(acc) => {
                let name = acc.name.clone();
                let args = acc.args.clone();
                assert(self@.pending =~= old(self)@.pending.remove(idx));
                self.record_tool_call(
                    ToolCall {
                        id: acc.id,
                        call_type: own("function"),
                        function: FunctionCall { name: acc.name, arguments: acc.args },
                    },
                );
                Some((name, args))
            },
            None => {
                assert(self@ =~= old(self)@);
                None
            },
        }
    }

    /// What of a piece of content is looked at: before content has started,
    /// what follows its leading white space.
    pub fn trim_content(&mut self, delta: String) -> (r: String)
        ensures
            r@ == trimmed_delta(delta@, old(self)@.content_started),
            final(self)@ == (StateView {
                content_started: old(self)@.content_started || r@.len() > 0,
                ..old(self)@
            }),
    {
        let mut started = self.content_started;
        let r = trim_until_content_started(delta, &mut started);
        self.content_started = started;
        r
    }

    /// Adds to the content in which stop strings are looked for, and returns
    /// all of it.
    pub fn accumulate(&mut self, delta: &str) -> (r: &str)
        ensures
            r@ == old(self)@.accumulated + delta@,
            final(self)@ == (StateView {
                accumulated: old(self)@.accumulated + delta@,
                ..old(self)@
            }),
    {
        self.accumulated_content.append(delta);
        self.accumulated_content.as_str()
    }

    /// The message that went out.
    pub fn into_message(self) -> (r: ChatMessage)
        ensures
            r@ == self@.message(),
    {
        let has_calls = self.dump_tool_calls.len() > 0;
        ChatMessage {
            role: own("assistant"),
            reasoning_content: if self.dump_reasoning_content.as_str().is_empty() {
                None
            } else {
                Some(self.dump_reasoning_content)
            },
            reasoning: None,
            content: if self.dump_content.as_str().is_empty() {
                None
            } else {
                Some(self.dump_content)
            },
            tool_calls: if has_calls {
                Some(self.dump_tool_calls)
            } else {
                None
            },
            annotations: None,
            refusal: None,
        }
    }
}

/// A piece of content, without leading white space while none has started.
pub open spec fn trimmed_delta(delta: Seq<char>, started: bool) -> Seq<char> {
    if started {
        delta
    } else {
        trim_start(delta, CharSet::White)
    }
}

/// Strips leading white space until the first content comes.
pub fn trim_until_content_started(delta: String, content_started: &mut bool) -> (r: String)
    ensures
        r@ == trimmed_delta(delta@, *old(content_started)),
        *final(content_started) == (*old(content_started) || r@.len() > 0),
{
    if *content_started {
        return delta;
    }
    let trimmed = trim_start_chars(&chars_of(delta.as_str()), CharSet::White);
    if trimmed.len() > 0 {
        *content_started = true;
    }
    string_of_all(&trimmed)
}

} // verus!

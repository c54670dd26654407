//! From decoded text to events.
//!
//! [`StepperCore`] holds every decision: what becomes of a scanner's result
//! and of a detector's outputs. [`Stepper`] joins it with a thinking scanner
//! and a tool-call detector and runs them on the text of one completion.
use vstd::prelude::*;
use std::collections::HashMap;
use crate::chat_fsm::events::{FsmEvent, StopReason};
use crate::chat_fsm::events::{event_views, lemma_event_views_push, EventView, StopView};
use crate::chat_fsm::stop_predicate::{StopOutcome, StopPredicate};
use crate::chat_fsm::stop_predicate::{sorted_by_len, OutcomeView, StopModel};
use crate::text::{chars_of, string_of_all, CharSet};
use crate::text::views;
use crate::tools::DetectorOutput;
use crate::tools::{opt_view, output_views, OutputView};
use crate::trim::trim_start_chars;
use crate::trim::trim_start;

verus! {

/// What a thinking scanner made of a piece of text.
#[derive(Debug, Clone)]
pub enum ThinkingScanResult {
    /// Still thinking; this much reasoning is certain.
    Continue { emit: String },
    /// The thinking ended; the rest of the text is content.
    Transition { final_reasoning: String, content_start: String },
}

/// What a [`ThinkingScanResult`] says.
pub enum ScanView {
    Continue { emit: Seq<char> },
    Transition { final_reasoning: Seq<char>, content_start: Seq<char> },
}

impl View for ThinkingScanResult {
    type V = ScanView;

    open spec fn view(&self) -> ScanView {
        match *self {
            ThinkingScanResult::Continue { emit } => ScanView::Continue { emit: emit@ },
            ThinkingScanResult::Transition { final_reasoning, content_start } => {
                ScanView::Transition {
                    final_reasoning: final_reasoning@,
                    content_start: content_start@,
                }
            },
        }
    }
}

/// Finds the end of a model's thinking in text that arrives in pieces.
///
/// What a scanner makes of a text is its own affair. The relations say which
/// call gave a result and which scanner it left behind; a scanner may say more
/// in them of what it does, and says nothing where it leaves them as they are.
pub trait ThinkingScanner: Sized {
    /// One more piece may give this result, and leave the scanner `next`.
    open spec fn scans(self, chunk: Seq<char>, scan: ScanView, next: Self) -> bool {
        true
    }

    /// This may be held back at the end of the text.
    open spec fn holds_back(self, tail: Seq<char>) -> bool {
        true
    }

    /// Takes one more piece.
    fn process(&mut self, chunk: &str) -> (r: ThinkingScanResult)
        ensures
            old(self).scans(chunk@, r@, *final(self)),
    ;

    /// Gives out what is held back, at the end of the text.
    fn flush(&mut self) -> (r: String)
        ensures
            old(self).holds_back(r@),
    ;
}

/// Finds tool calls in content that arrives in pieces. Its relations are meant
/// as those of a [`ThinkingScanner`].
pub trait ToolDetector: Sized {
    /// One more piece may give these outputs, and leave the detector `next`.
    open spec fn detects(self, delta: Seq<char>, outs: Seq<OutputView>, next: Self) -> bool {
        true
    }

    /// These outputs may be held back at the end of the content, and giving
    /// them out may leave the detector `next`.
    open spec fn holds_back(self, outs: Seq<OutputView>, next: Self) -> bool {
        true
    }

    /// Forgetting what is held back may leave the detector `next`.
    open spec fn forgets(self, next: Self) -> bool {
        true
    }

    /// The detector may say this of whether a call was found.
    open spec fn says_found(self, found: bool) -> bool {
        true
    }

    /// Takes one more piece.
    fn process(&mut self, delta: &str) -> (r: Vec<DetectorOutput>)
        ensures
            old(self).detects(delta@, output_views(r@), *final(self)),
    ;

    /// Gives out what is held back, at the end of the content.
    fn flush(&mut self) -> (r: Vec<DetectorOutput>)
        ensures
            old(self).holds_back(output_views(r@), *final(self)),
    ;

    /// Forgets what is held back.
    fn reset(&mut self)
        ensures
            old(self).forgets(*final(self)),
    ;

    /// Whether a call was found.
    fn has_tool_calls(&self) -> (r: bool)
        ensures
            self.says_found(r),
    ;
}

/// Content, of which the detector is handed `delta` where there is any to
/// hand, gives these outputs, and leaves the detector `next`; without a
/// detector there are none.
pub open spec fn detected<D: ToolDetector>(
    held: Option<D>,
    delta: Option<Seq<char>>,
    outs: Option<Seq<OutputView>>,
    next: Option<D>,
) -> bool {
    &&& (outs is Some) == (held is Some)
    &&& match (held, delta) {
        (Some(d), Some(text)) => next is Some && d.detects(text, outs->0, next->0),
        _ => next == held,
    }
}

/// The detector, where there is one, forgets what it holds back.
pub open spec fn forgotten<D: ToolDetector>(held: Option<D>, next: Option<D>) -> bool {
    match held {
        Some(d) => next is Some && d.forgets(next->0),
        None => next is None,
    }
}

/// At the end, the detector, where there is one, gives these outputs out.
pub open spec fn released<D: ToolDetector>(
    held: Option<D>,
    outs: Option<Seq<OutputView>>,
    next: Option<D>,
) -> bool {
    match held {
        Some(d) => outs is Some && next is Some && d.holds_back(outs->0, next->0),
        None => outs is None && next is None,
    }
}

/// At the end, the scanner, where there is one, gives this tail out.
pub open spec fn tail_released<S: ThinkingScanner>(held: Option<S>, tail: Option<Seq<char>>) -> bool {
    match held {
        Some(s) => tail is Some && s.holds_back(tail->0),
        None => tail is None,
    }
}

/// How a completion is to be read.
#[derive(Debug)]
pub struct StepperConfig {
    /// Whether the model was asked to think.
    pub enable_thinking: bool,
    /// Whether tool calls are looked for.
    pub tools_active: bool,
    /// The stop strings of the request.
    pub stop_strings: Vec<String>,
}

/// What is known of a tool call.
#[derive(Debug, Clone)]
pub struct ToolCallAcc {
    pub id: String,
    pub name: String,
    pub args: String,
}

/// What a [`ToolCallAcc`] says.
pub struct AccView {
    pub id: Seq<char>,
    pub name: Seq<char>,
    pub args: Seq<char>,
}

impl View for ToolCallAcc {
    type V = AccView;

    open spec fn view(&self) -> AccView {
        AccView { id: self.id@, name: self.name@, args: self.args@ }
    }
}

/// The state of the decisions.
#[derive(Debug)]
pub struct StepperCore {
    thinking: bool,
    content_started: bool,
    stop_pred: Option<StopPredicate>,
    tool_acc: HashMap<usize, ToolCallAcc>,
    stopped: bool,
}

/// What a [`StepperCore`] holds.
#[verifier::ext_equal]
pub struct CoreView {
    /// Whether the text is still reasoning.
    pub thinking: bool,
    /// Whether some content other than leading white space has come.
    pub content_started: bool,
    /// The stop strings and the content that they were looked for in.
    pub stop: Option<StopModel>,
    /// The calls that were started.
    pub acc: Map<usize, AccView>,
    /// Whether `Stopped` was emitted.
    pub stopped: bool,
}

impl View for StepperCore {
    type V = CoreView;

    closed spec fn view(&self) -> CoreView {
        CoreView {
            thinking: self.thinking,
            content_started: self.content_started,
            stop: match self.stop_pred {
                Some(p) => Some(p@),
                None => None,
            },
            acc: self.tool_acc@.map_values(|a: ToolCallAcc| a@),
            stopped: self.stopped,
        }
    }
}

/// A delta event, unless it would be empty.
pub open spec fn content_event(text: Seq<char>) -> Seq<EventView> {
    if text.len() == 0 {
        Seq::empty()
    } else {
        seq![EventView::ContentDelta(text)]
    }
}

/// A reasoning delta event, unless it would be empty.
pub open spec fn reasoning_event(text: Seq<char>) -> Seq<EventView> {
    if text.len() == 0 {
        Seq::empty()
    } else {
        seq![EventView::ReasoningDelta(text)]
    }
}

/// The event of a scanner's tail, if there is a scanner.
pub open spec fn tail_event(tail: Option<Seq<char>>) -> Seq<EventView> {
    match tail {
        Some(t) => reasoning_event(t),
        None => Seq::empty(),
    }
}

/// The view of a detector's outputs, if there is a detector.
pub open spec fn opt_output_views(o: Option<Vec<DetectorOutput>>) -> Option<Seq<OutputView>> {
    match o {
        Some(v) => Some(output_views(v@)),
        None => None,
    }
}

/// An argument delta event, unless it would be empty.
pub open spec fn args_event(args: Seq<char>, idx: usize) -> Seq<EventView> {
    if args.len() == 0 {
        Seq::empty()
    } else {
        seq![EventView::ToolCallArgDelta { args, idx }]
    }
}

impl CoreView {
    /// Content goes out unless a stop string ends it: then only the part
    /// before the stop string goes out, and `Stopped` after it.
    pub open spec fn emit(self, text: Seq<char>) -> (CoreView, Seq<EventView>) {
        match self.stop {
            None => (self, content_event(text)),
            Some(p) => match p.outcome(text) {
                OutcomeView::Pass => (
                    CoreView { stop: Some(p.fed(text)), ..self },
                    content_event(text),
                ),
                OutcomeView::Fire { safe_prefix, matched } => (
                    CoreView { stop: Some(p.fed(text)), stopped: true, ..self },
                    content_event(safe_prefix) + seq![
                        EventView::Stopped { reason: StopView::StopString(matched) },
                    ],
                ),
            },
        }
    }

    /// One detector output becomes events. A complete call becomes its
    /// start, its arguments and its end.
    pub open spec fn dispatch_one(self, o: OutputView) -> (CoreView, Seq<EventView>) {
        match o {
            OutputView::Content(text) => if text.len() == 0 {
                (self, Seq::empty())
            } else {
                self.emit(text)
            },
            OutputView::ToolCall(c, idx) => (
                CoreView {
                    acc: self.acc.insert(
                        idx,
                        AccView { id: c.id, name: c.name, args: c.arguments },
                    ),
                    ..self
                },
                seq![EventView::ToolCallStart { id: c.id, name: c.name, idx }] + args_event(
                    c.arguments,
                    idx,
                ) + seq![EventView::ToolCallEnd { idx }],
            ),
            OutputView::ToolCallStart { id, name, idx } => (
                CoreView {
                    acc: self.acc.insert(idx, AccView { id, name, args: Seq::empty() }),
                    ..self
                },
                seq![EventView::ToolCallStart { id, name, idx }],
            ),
            OutputView::ToolCallDelta { args, idx } => (
                if self.acc.contains_key(idx) {
                    let a = self.acc[idx];
                    CoreView {
                        acc: self.acc.insert(idx, AccView { args: a.args + args, ..a }),
                        ..self
                    }
                } else {
                    self
                },
                args_event(args, idx),
            ),
            OutputView::ToolCallEnd { idx } => (self, seq![EventView::ToolCallEnd { idx }]),
        }
    }

    /// Detector outputs become events, one after the other, until one of
    /// them stops the completion.
    pub open spec fn dispatch(self, outs: Seq<OutputView>) -> (CoreView, Seq<EventView>)
        decreases outs.len(),
    {
        if outs.len() == 0 || self.stopped {
            (self, Seq::empty())
        } else {
            let (m, e) = self.dispatch_one(outs[0]);
            let (n, f) = m.dispatch(outs.drop_first());
            (n, e + f)
        }
    }

    /// What of a piece of content is looked at: all of it once content has
    /// started; before that, what follows its leading white space, if
    /// anything does.
    pub open spec fn content_delta(self, chunk: Seq<char>) -> Option<Seq<char>> {
        if self.content_started {
            Some(chunk)
        } else if trim_start(chunk, CharSet::White).len() == 0 {
            None
        } else {
            Some(trim_start(chunk, CharSet::White))
        }
    }

    /// The state once content is looked at.
    pub open spec fn content_seen(self) -> CoreView {
        CoreView { content_started: true, ..self }
    }

    /// A piece of content, where `outs` is what the detector makes of it;
    /// `None` where there is no detector.
    pub open spec fn feed_content(self, chunk: Seq<char>, outs: Option<Seq<OutputView>>) -> (
        CoreView,
        Seq<EventView>,
    ) {
        match self.content_delta(chunk) {
            None => (self, Seq::empty()),
            Some(delta) => match outs {
                Some(o) => self.content_seen().dispatch(o),
                None => self.content_seen().emit(delta),
            },
        }
    }

    /// The end of the thinking: content begins, its leading white space not
    /// yet seen off.
    pub open spec fn enter_content(self) -> CoreView {
        CoreView { thinking: false, content_started: false, ..self }
    }

    /// A piece of text while thinking, where `scan` is what the scanner makes
    /// of it and `outs` what the detector makes of the content that follows.
    pub open spec fn feed_thinking(
        self,
        scan: ScanView,
        outs: Option<Seq<OutputView>>,
    ) -> (CoreView, Seq<EventView>) {
        match scan {
            ScanView::Continue { emit } => (self, reasoning_event(emit)),
            ScanView::Transition { final_reasoning, content_start } => {
                let m = self.enter_content();
                if content_start.len() == 0 {
                    (m, reasoning_event(final_reasoning))
                } else {
                    let (n, e) = m.feed_content(content_start, outs);
                    (n, reasoning_event(final_reasoning) + e)
                }
            },
        }
    }

    /// One piece of decoded text.
    pub open spec fn step(
        self,
        chunk: Option<Seq<char>>,
        scan: ScanView,
        outs: Option<Seq<OutputView>>,
    ) -> (CoreView, Seq<EventView>) {
        match chunk {
            Some(c) if !self.stopped => if self.thinking {
                self.feed_thinking(scan, outs)
            } else {
                self.feed_content(c, outs)
            },
            _ => (self, Seq::empty()),
        }
    }

    /// The end of the text: what scanner and detector held back, then
    /// `Stopped`, unless it came before.
    pub open spec fn finish(
        self,
        tail: Option<Seq<char>>,
        outs: Option<Seq<OutputView>>,
        reason: Seq<char>,
    ) -> (CoreView, Seq<EventView>) {
        if self.stopped {
            (self, Seq::empty())
        } else {
            let r = tail_event(tail);
            let (m, e) = match outs {
                Some(o) => self.dispatch(o),
                None => (self, Seq::empty()),
            };
            if m.stopped {
                (m, r + e)
            } else {
                (
                    CoreView { stopped: true, ..m },
                    r + e + seq![EventView::Stopped { reason: StopView::Upstream(reason) }],
                )
            }
        }
    }
}

impl StepperCore {
    /// The start of a completion: in thinking or in content, with the stop
    /// strings of the request.
    pub fn new(thinking: bool, stop_strings: Vec<String>) -> (r: StepperCore)
        ensures
            r@.thinking == thinking,
            r@.content_started == !thinking,
            r@.acc == Map::<usize, AccView>::empty(),
            !r@.stopped,
            (r@.stop is None) == (stop_strings@.len() == 0),
            r@.stop matches Some(p) ==> p.accumulated == Seq::<char>::empty() && sorted_by_len(
                views(stop_strings@),
                p.stops,
            ),
    {
        let stop_pred = if stop_strings.len() == 0 {
            None
        } else {
            Some(StopPredicate::new(stop_strings))
        };
        let r = StepperCore {
            thinking,
            content_started: !thinking,
            stop_pred,
            tool_acc: HashMap::new(),
            stopped: false,
        };
        assert(r@.acc =~= Map::<usize, AccView>::empty());
        r
    }

    /// Whether `Stopped` was emitted.
    pub fn is_stopped(&self) -> (r: bool)
        ensures
            r == self@.stopped,
    {
        self.stopped
    }

    /// Whether the text is still reasoning.
    pub fn is_thinking(&self) -> (r: bool)
        ensures
            r == self@.thinking,
    {
        self.thinking
    }

    /// Emits content, watching for stop strings.
    pub fn emit_content_with_stop_check(&mut self, text: String, out: &mut Vec<FsmEvent>)
        ensures
            final(self)@ == old(self)@.emit(text@).0,
            event_views(final(out)@) == event_views(old(out)@) + old(self)@.emit(text@).1,
    {
        broadcast use lemma_event_views_push;

        let empty = text.as_str().is_empty();
        let mut pass = true;
        if self.stop_pred.is_some() {
            let mut pred = self.stop_pred.take();
            match &mut pred {
                Some(p) => {
                    match p.feed(text.as_str()) {
                        StopOutcome::Pass => {},
                        StopOutcome::Fire { safe_prefix, matched } => {
                            pass = false;
                            self.stopped = true;
                            if !safe_prefix.as_str().is_empty() {
                                out.push(FsmEvent::ContentDelta(safe_prefix));
                            }
                            out.push(
                                FsmEvent::Stopped { reason: StopReason::StopString { matched } },
                            );
                        },
                    }
                },
                None => {},
            }
            self.stop_pred = pred;
        }
        if pass && !empty {
            out.push(FsmEvent::ContentDelta(text));
        }
        assert(self@ =~= old(self)@.emit(text@).0);
        assert(event_views(out@) =~= event_views(old(out)@) + old(self)@.emit(text@).1);
    }

    /// Turns one detector output into events.
    fn dispatch_output(&mut self, output: DetectorOutput, out: &mut Vec<FsmEvent>)
        ensures
            final(self)@ == old(self)@.dispatch_one(output@).0,
            event_views(final(out)@) == event_views(old(out)@) + old(self)@.dispatch_one(
                output@,
            ).1,
    {
        broadcast use lemma_event_views_push;

        match output {
            DetectorOutput::Content(text) => {
                if !text.as_str().is_empty() {
                    self.emit_content_with_stop_check(text, out);
                }
            },
            DetectorOutput::ToolCall(tc, idx) => {
                out.push(
                    FsmEvent::ToolCallStart {
                        id: tc.id.clone(),
                        name: tc.function.name.clone(),
                        idx,
                    },
                );
                let acc = ToolCallAcc {
                    id: tc.id,
                    name: tc.function.name,
                    args: tc.function.arguments.clone(),
                };
                self.tool_acc.insert(idx, acc);
                if !tc.function.arguments.as_str().is_empty() {
                    out.push(FsmEvent::ToolCallArgDelta { args: tc.function.arguments, idx });
                }
                out.push(FsmEvent::ToolCallEnd { idx });
            },
            DetectorOutput::ToolCallStart { id, name, idx } => {
                let acc = ToolCallAcc {
                    id: id.clone(),
                    name: name.clone(),
                    args: String::new(),
                };
                self.tool_acc.insert(idx, acc);
                out.push(FsmEvent::ToolCallStart { id, name, idx });
            },
            DetectorOutput::ToolCallDelta { args, idx } => {
                if let Some(mut acc) = self.tool_acc.remove(&idx) {
                    acc.args.append(args.as_str());
                    self.tool_acc.insert(idx, acc);
                }
                if !args.as_str().is_empty() {
                    out.push(FsmEvent::ToolCallArgDelta { args, idx });
                }
            },
            DetectorOutput::ToolCallEnd { idx } => {
                out.push(FsmEvent::ToolCallEnd { idx });
            },
        }
        assert(self@ =~= old(self)@.dispatch_one(output@).0);
        assert(event_views(out@) =~= event_views(old(out)@) + old(self)@.dispatch_one(output@).1);
    }

    /// Turns detector outputs into events.
    pub fn dispatch_detector_outputs(
        &mut self,
        outputs: Vec<DetectorOutput>,
        out: &mut Vec<FsmEvent>,
    )
        ensures
            final(self)@ == old(self)@.dispatch(output_views(outputs@)).0,
            event_views(final(out)@) == event_views(old(out)@) + old(self)@.dispatch(
                output_views(outputs@),
            ).1,
    {
        let ghost all = old(self)@.dispatch(output_views(outputs@));
        let mut rest = outputs;
        assert(event_views(out@) + all.1 =~= event_views(old(out)@) + all.1);
        while rest.len() > 0 && !self.stopped
            invariant
                self@.dispatch(output_views(rest@)).0 == all.0,
                event_views(out@) + self@.dispatch(output_views(rest@)).1 == event_views(old(out)@)
                    + all.1,
            decreases rest@.len(),
        {
            let ghost m = self@;
            let ghost before = event_views(out@);
            let ghost outs = output_views(rest@);
            let output = rest.remove(0);
            assert(output_views(rest@) =~= outs.drop_first());
            self.dispatch_output(output, out);
            proof {
                let (n, e) = m.dispatch_one(outs[0]);
                let f = n.dispatch(outs.drop_first()).1;
                assert(before + (e + f) =~= (before + e) + f);
            }
        }
        assert(event_views(out@) =~= event_views(old(out)@) + all.1);
    }

    /// What of a piece of content the detector is to see.
    pub fn begin_content(&mut self, chunk: String) -> (r: Option<String>)
        ensures
            match r {
                Some(d) => old(self)@.content_delta(chunk@) == Some(d@) && final(self)@ == old(
                    self,
                )@.content_seen(),
                None => old(self)@.content_delta(chunk@) is None && final(self)@ == old(self)@,
            },
    {
        if self.content_started {
            return Some(chunk);
        }
        let chars = chars_of(chunk.as_str());
        let trimmed = trim_start_chars(&chars, CharSet::White);
        if trimmed.len() == 0 {
            return None;
        }
        self.content_started = true;
        Some(string_of_all(&trimmed))
    }

    /// Takes what the scanner made of a piece of text. Returns the content
    /// that follows the thinking, where the thinking ended and some does.
    pub fn take_scan(&mut self, scan: ThinkingScanResult, out: &mut Vec<FsmEvent>) -> (r: Option<
        String,
    >)
        ensures
            match scan@ {
                ScanView::Continue { emit } => r is None && final(self)@ == old(self)@
                    && event_views(final(out)@) == event_views(old(out)@) + reasoning_event(emit),
                ScanView::Transition { final_reasoning, content_start } => {
                    &&& final(self)@ == old(self)@.enter_content()
                    &&& event_views(final(out)@) == event_views(old(out)@) + reasoning_event(
                        final_reasoning,
                    )
                    &&& (r is Some) == (content_start.len() > 0)
                    &&& r matches Some(c) ==> c@ == content_start
                },
            },
    {
        broadcast use lemma_event_views_push;

        match scan {
            ThinkingScanResult::Continue { emit } => {
                if !emit.as_str().is_empty() {
                    out.push(FsmEvent::ReasoningDelta(emit));
                }
                assert(event_views(out@) =~= event_views(old(out)@) + reasoning_event(emit@));
                None
            },
            ThinkingScanResult::Transition { final_reasoning, content_start } => {
                if !final_reasoning.as_str().is_empty() {
                    out.push(FsmEvent::ReasoningDelta(final_reasoning));
                }
                self.thinking = false;
                self.content_started = false;
                assert(event_views(out@) =~= event_views(old(out)@) + reasoning_event(
                    final_reasoning@,
                ));
                assert(self@ =~= old(self)@.enter_content());
                if content_start.as_str().is_empty() {
                    None
                } else {
                    Some(content_start)
                }
            },
        }
    }

    /// Ends the completion: the scanner's tail, the detector's tail, then
    /// `Stopped` unless it came before.
    pub fn take_tails(
        &mut self,
        tail: Option<String>,
        outputs: Option<Vec<DetectorOutput>>,
        upstream_finish_reason: String,
    ) -> (out: Vec<FsmEvent>)
        ensures
            (final(self)@, event_views(out@)) == old(self)@.finish(
                opt_view(tail),
                opt_output_views(outputs),
                upstream_finish_reason@,
            ),
    {
        broadcast use lemma_event_views_push;

        let mut out: Vec<FsmEvent> = Vec::new();
        assert(event_views(out@) =~= Seq::<EventView>::empty());
        if self.stopped {
            return out;
        }
        let ghost r = tail_event(opt_view(tail));
        let ghost o = opt_output_views(outputs);
        if let Some(t) = tail {
            if !t.as_str().is_empty() {
                out.push(FsmEvent::ReasoningDelta(t));
            }
        }
        assert(event_views(out@) =~= r);
        if let Some(o) = outputs {
            self.dispatch_detector_outputs(o, &mut out);
        }
        let ghost mid = event_views(out@);
        assert(mid =~= r + match o {
            Some(v) => old(self)@.dispatch(v).1,
            None => Seq::<EventView>::empty(),
        });
        if self.stopped {
            return out;
        }
        out.push(FsmEvent::Stopped { reason: StopReason::Upstream(upstream_finish_reason) });
        self.stopped = true;
        assert(event_views(out@) =~= mid + seq![
            EventView::Stopped { reason: StopView::Upstream(upstream_finish_reason@) },
        ]);
        out
    }

    /// What is known of the call with this index.
    pub fn tool_acc(&self, idx: usize) -> (r: Option<&ToolCallAcc>)
        ensures
            match r {
                Some(a) => self@.acc.contains_key(idx) && self@.acc[idx] == a@,
                None => !self@.acc.contains_key(idx),
            },
    {
        self.tool_acc.get(&idx)
    }
}

/// Reads one completion: a core with its scanner and its detector.
#[derive(Debug)]
pub struct Stepper<S: ThinkingScanner, D: ToolDetector> {
    core: StepperCore,
    scanner: Option<S>,
    detector: Option<D>,
}

impl<S: ThinkingScanner, D: ToolDetector> Stepper<S, D> {
    /// The state of the decisions.
    pub closed spec fn model(self) -> CoreView {
        self.core@
    }

    /// The scanner, while the text is reasoning.
    pub closed spec fn scanner(self) -> Option<S> {
        self.scanner
    }

    /// The detector that content goes through, where there is one.
    pub closed spec fn detector(self) -> Option<D> {
        self.detector
    }

    /// Whether content goes through a detector.
    pub open spec fn detects(self) -> bool {
        self.detector() is Some
    }

    /// Until the end there is a scanner exactly while the text is reasoning.
    pub open spec fn wf(self) -> bool {
        self.model().stopped || (self.model().thinking <==> self.scanner() is Some)
    }

    /// A text may have these results: the scanner's, made of the text while
    /// it is reasoning, and the detector's, made of the content in it. `next`
    /// holds what they leave the scanner and the detector as.
    pub open spec fn reads(
        self,
        chunk: Option<Seq<char>>,
        scan: ScanView,
        outs: Option<Seq<OutputView>>,
        next: Stepper<S, D>,
    ) -> bool {
        let m = self.model();
        match chunk {
            Some(c) if !m.stopped => if m.thinking {
                match scan {
                    ScanView::Continue { .. } => {
                        &&& next.scanner() is Some
                        &&& self.scanner()->0.scans(c, scan, next.scanner()->0)
                        &&& detected(self.detector(), None, outs, next.detector())
                    },
                    ScanView::Transition { content_start, .. } => {
                        &&& next.scanner() is None
                        &&& exists|left: S| self.scanner()->0.scans(c, scan, left)
                        &&& exists|d: Option<D>| #[trigger]
                            forgotten(self.detector(), d) && detected(
                                d,
                                m.enter_content().content_delta(content_start),
                                outs,
                                next.detector(),
                            )
                    },
                }
            } else {
                &&& next.scanner() == self.scanner()
                &&& detected(self.detector(), m.content_delta(c), outs, next.detector())
            },
            _ => {
                &&& next.scanner() == self.scanner()
                &&& detected(self.detector(), None, outs, next.detector())
            },
        }
    }

    /// The end of the text may have these results: what the scanner and the
    /// detector held back. Once stopped, neither is asked.
    pub open spec fn ends(
        self,
        tail: Option<Seq<char>>,
        outs: Option<Seq<OutputView>>,
        next: Stepper<S, D>,
    ) -> bool {
        if self.model().stopped {
            next.detector() == self.detector()
        } else {
            &&& tail_released(self.scanner(), tail)
            &&& released(self.detector(), outs, next.detector())
        }
    }

    /// Starts a completion. It starts in thinking where thinking was asked
    /// for and there is a scanner for it; content goes through the detector
    /// where tools are active.
    pub fn new(cfg: StepperConfig, scanner: Option<S>, detector: D) -> (r: Stepper<S, D>)
        ensures
            r.wf(),
            r.model().thinking == (cfg.enable_thinking && scanner is Some),
            r.scanner() == if r.model().thinking {
                scanner
            } else {
                None
            },
            r.detector() == if cfg.tools_active {
                Some(detector)
            } else {
                None
            },
            r.model().content_started == !r.model().thinking,
            r.model().acc == Map::<usize, AccView>::empty(),
            !r.model().stopped,
            (r.model().stop is None) == (cfg.stop_strings@.len() == 0),
            r.model().stop matches Some(p) ==> p.accumulated == Seq::<char>::empty()
                && sorted_by_len(views(cfg.stop_strings@), p.stops),
            r.detects() == cfg.tools_active,
    {
        let thinking = cfg.enable_thinking && scanner.is_some();
        let core = StepperCore::new(thinking, cfg.stop_strings);
        let scanner = if thinking {
            scanner
        } else {
            None
        };
        let detector = if cfg.tools_active {
            Some(detector)
        } else {
            None
        };
        Stepper { core, scanner, detector }
    }

    /// Takes the text that one token decoded to, if any. The core goes the
    /// way that the scanner's and the detector's results lay down.
    pub fn step_token(&mut self, decoded: Option<String>) -> (out: Vec<FsmEvent>)
        requires
            old(self).wf(),
        ensures
            final(self).wf(),
            final(self).detects() == old(self).detects(),
            old(self).model().stopped ==> out@.len() == 0 && *final(self) == *old(self),
            exists|scan: ScanView, outs: Option<Seq<OutputView>>|
                old(self).reads(opt_view(decoded), scan, outs, *final(self)) && (
                final(self).model(), event_views(out@)) == #[trigger] old(self).model().step(
                    opt_view(decoded),
                    scan,
                    outs,
                ),
    {
        let mut out: Vec<FsmEvent> = Vec::new();
        assert(event_views(out@) =~= Seq::<EventView>::empty());
        let ghost any_scan = ScanView::Continue { emit: Seq::empty() };
        let ghost any_outs = if self.detects() {
            Some(Seq::<OutputView>::empty())
        } else {
            None
        };
        let ghost pre = *self;
        let chunk = match decoded {
            Some(c) => c,
            None => {
                assert(pre.reads(None, any_scan, any_outs, *self));
                assert((self.model(), event_views(out@)) == self.model().step(
                    None,
                    any_scan,
                    any_outs,
                ));
                return out;
            },
        };
        if self.core.is_stopped() {
            assert(pre.reads(Some(chunk@), any_scan, any_outs, *self));
            assert((self.model(), event_views(out@)) == self.model().step(
                Some(chunk@),
                any_scan,
                any_outs,
            ));
            return out;
        }
        if self.core.is_thinking() {
            let mut scanner = self.scanner.take();
            match &mut scanner {
                Some(s) => {
                    let scan = s.process(chunk.as_str());
                    let ghost sv = scan@;
                    let ghost m0 = self.core@;
                    let rest = self.core.take_scan(scan, &mut out);
                    let ghost e0 = event_views(out@);
                    if self.core.is_thinking() {
                        self.scanner = scanner;
                        assert(pre.reads(Some(chunk@), sv, any_outs, *self));
                        assert(e0 =~= m0.feed_thinking(sv, any_outs).1);
                        assert((self.model(), event_views(out@)) == m0.step(
                            Some(chunk@),
                            sv,
                            any_outs,
                        ));
                    } else {
                        if let Some(d) = &mut self.detector {
                            d.reset();
                        }
                        let ghost cleared = self.detector;
                        assert(forgotten(pre.detector, cleared));
                        match rest {
                            Some(c) => {
                                let ghost m1 = self.core@;
                                let Ghost(outs) = self.feed_content(c, &mut out);
                                proof {
                                    assert(pre.reads(Some(chunk@), sv, outs, *self));
                                    let (n, e) = m1.feed_content(c@, outs);
                                    assert(event_views(out@) == e0 + e);
                                    assert((self.model(), event_views(out@)) == m0.step(
                                        Some(chunk@),
                                        sv,
                                        outs,
                                    ));
                                }
                            },
                            None => {
                                assert(e0 =~= m0.feed_thinking(sv, any_outs).1);
                                proof {
                                    lemma_nothing_begins(self.core@, sv->content_start);
                                    assert(pre.reads(Some(chunk@), sv, any_outs, *self));
                                }
                                assert((self.model(), event_views(out@)) == m0.step(
                                    Some(chunk@),
                                    sv,
                                    any_outs,
                                ));
                            },
                        }
                    }
                },
                None => {},
            }
        } else {
            let ghost m0 = self.core@;
            let Ghost(outs) = self.feed_content(chunk, &mut out);
            assert(event_views(out@) =~= m0.feed_content(chunk@, outs).1);
            assert(pre.reads(Some(chunk@), any_scan, outs, *self));
            assert((self.model(), event_views(out@)) == m0.step(Some(chunk@), any_scan, outs));
        }
        out
    }

    /// Takes a piece of decoded text.
    pub fn feed_chunk(&mut self, chunk: String) -> (out: Vec<FsmEvent>)
        requires
            old(self).wf(),
        ensures
            final(self).wf(),
            final(self).detects() == old(self).detects(),
            old(self).model().stopped ==> out@.len() == 0 && *final(self) == *old(self),
            exists|scan: ScanView, outs: Option<Seq<OutputView>>|
                old(self).reads(Some(chunk@), scan, outs, *final(self)) && (
                final(self).model(), event_views(out@)) == #[trigger] old(self).model().step(
                    Some(chunk@),
                    scan,
                    outs,
                ),
    {
        self.step_token(Some(chunk))
    }

    /// Takes a piece of content. Hands back what the detector made of it.
    fn feed_content(&mut self, chunk: String, out: &mut Vec<FsmEvent>) -> (outs: Ghost<
        Option<Seq<OutputView>>,
    >)
        requires
            !old(self).model().thinking,
        ensures
            detected(
                old(self).detector,
                old(self).model().content_delta(chunk@),
                outs@,
                final(self).detector,
            ),
            final(self).model() == old(self).model().feed_content(chunk@, outs@).0,
            event_views(final(out)@) == event_views(old(out)@) + old(self).model().feed_content(
                chunk@,
                outs@,
            ).1,
            final(self).scanner == old(self).scanner,
            !final(self).model().thinking,
    {
        let ghost m0 = self.core@;
        match self.core.begin_content(chunk) {
            None => {
                assert(event_views(out@) =~= event_views(old(out)@) + Seq::<EventView>::empty());
                if self.detector.is_some() {
                    Ghost(Some(Seq::empty()))
                } else {
                    Ghost(None)
                }
            },
            Some(delta) => {
                let ghost m1 = self.core@;
                let mut detector = self.detector.take();
                let outs: Ghost<Option<Seq<OutputView>>> = match &mut detector {
                    Some(d) => {
                        let outputs = d.process(delta.as_str());
                        let ghost views = output_views(outputs@);
                        self.core.dispatch_detector_outputs(outputs, out);
                        proof {
                            lemma_dispatch_keeps_phase(m1, views);
                        }
                        Ghost(Some(views))
                    },
                    None => {
                        self.core.emit_content_with_stop_check(delta, out);
                        Ghost(None)
                    },
                };
                self.detector = detector;
                outs
            },
        }
    }

    /// Ends the completion. Once it has ended, nothing comes of it again.
    pub fn flush(&mut self, upstream_finish_reason: String) -> (out: Vec<FsmEvent>)
        requires
            old(self).wf(),
        ensures
            final(self).wf(),
            final(self).model().stopped,
            final(self).detects() == old(self).detects(),
            old(self).model().stopped ==> out@.len() == 0 && *final(self) == *old(self),
            exists|tail: Option<Seq<char>>, outs: Option<Seq<OutputView>>|
                old(self).ends(tail, outs, *final(self)) && (
                final(self).model(), event_views(out@)) == #[trigger] old(self).model().finish(
                    tail,
                    outs,
                    upstream_finish_reason@,
                ),
    {
        let ghost pre = *self;
        let ghost m0 = self.core@;
        let mut tail: Option<String> = None;
        let mut outputs: Option<Vec<DetectorOutput>> = None;
        if self.core.is_stopped() {
            let out: Vec<FsmEvent> = Vec::new();
            assert(event_views(out@) =~= Seq::<EventView>::empty());
            assert((m0, event_views(out@)) == m0.finish(None, None, upstream_finish_reason@));
            return out;
        }
        let mut scanner = self.scanner.take();
        if let Some(s) = &mut scanner {
            tail = Some(s.flush());
        }
        if let Some(d) = &mut self.detector {
            outputs = Some(d.flush());
        }
        let ghost t = opt_view(tail);
        let ghost o = opt_output_views(outputs);
        let out = self.core.take_tails(tail, outputs, upstream_finish_reason);
        assert(pre.ends(t, o, *self));
        assert((self.model(), event_views(out@)) == m0.finish(t, o, upstream_finish_reason@));
        out
    }
}

/// Where the thinking ends and nothing follows, no content begins.
proof fn lemma_nothing_begins(m: CoreView, start: Seq<char>)
    requires
        start.len() == 0,
        !m.content_started,
    ensures
        m.content_delta(start) is None,
{
    assert(start =~= Seq::<char>::empty());
}

/// Detector outputs do not change the phase.
proof fn lemma_dispatch_keeps_phase(m: CoreView, outs: Seq<OutputView>)
    ensures
        m.dispatch(outs).0.thinking == m.thinking,
    decreases outs.len(),
{
    if outs.len() > 0 && !m.stopped {
        lemma_dispatch_keeps_phase(m.dispatch_one(outs[0]).0, outs.drop_first());
    }
}

} // verus!

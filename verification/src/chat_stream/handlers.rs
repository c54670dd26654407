//! What becomes of a piece of decoded text, and of the end of the text.
//!
//! The thinking scanner and the tool-call detector belong to the model. What
//! they make of the text arrives here as a value, so that every decision is a
//! function of plain values; [`handle_token`] and [`handle_done`] run them.
//! Content that the detector lets through is freed of leaked tags and watched
//! for running in circles before it goes out, and calls are counted.
use vstd::prelude::*;
use crate::chat_fsm::stepper::{ThinkingScanResult, ThinkingScanner, ToolDetector};
use crate::chat_fsm::stepper::{
    detected, forgotten, opt_output_views, released, tail_released, AccView, ScanView,
};
use crate::chat_stream::adapter::{usage_from, UsageInputs};
use crate::chat_stream::adapter::usage_of;
use crate::chat_stream::state::{StreamPhase, StreamState};
use crate::chat_stream::state::{trimmed_delta, whole_call, StateView};
use crate::chat_stream::wire::{push_end, refund, Wire};
use crate::chat_stream::wire::{end_items, lemma_wire_views_push, refund_due, wire_views, WireView};
use crate::text::{chars_of, find_chars, own, string_of};
use crate::text::{find, lemma_find_from, occurs_at, views};
use crate::tools::{DetectorOutput, LeakMarkers};
use crate::tools::{opt_view, output_views, MarkerView, OutputView};

verus! {

/// What is looked for in the content of a stream.
#[derive(Debug)]
pub struct StreamRules {
    /// The stop strings of the request.
    pub stops: Vec<String>,
    /// The tags that the model's tool-call format may leak.
    pub markers: LeakMarkers,
    /// The most calls of one answer.
    pub max_tool_calls: usize,
}

/// What [`StreamRules`] say.
pub struct RulesView {
    pub stops: Seq<Seq<char>>,
    pub markers: MarkerView,
    pub max_tool_calls: int,
}

impl View for StreamRules {
    type V = RulesView;

    open spec fn view(&self) -> RulesView {
        RulesView {
            stops: views(self.stops@),
            markers: self.markers@,
            max_tool_calls: self.max_tool_calls as int,
        }
    }
}

/// Items that say one thing, unless it is empty.
pub open spec fn content_item<F>(text: Seq<char>) -> Seq<WireView<F>> {
    if text.len() == 0 {
        Seq::empty()
    } else {
        seq![WireView::Content(text)]
    }
}

/// Items that say one piece of reasoning, unless it is empty.
pub open spec fn reasoning_item<F>(text: Seq<char>) -> Seq<WireView<F>> {
    if text.len() == 0 {
        Seq::empty()
    } else {
        seq![WireView::Reasoning(text)]
    }
}

/// Items that say some arguments, unless they are empty.
pub open spec fn args_item<F>(args: Seq<char>, idx: usize) -> Seq<WireView<F>> {
    if args.len() == 0 {
        Seq::empty()
    } else {
        seq![WireView::CallArgs { args, idx }]
    }
}

/// Where the first of the first `n` stop strings stands in `acc`, whichever of
/// them it is.
pub open spec fn stop_position(acc: Seq<char>, stops: Seq<Seq<char>>, n: nat) -> Option<int>
    decreases n,
{
    if n == 0 || n > stops.len() {
        None
    } else {
        match (stop_position(acc, stops, (n - 1) as nat), find(acc, stops[n - 1])) {
            (Some(b), Some(p)) => if p < b {
                Some(p)
            } else {
                Some(b)
            },
            (None, found) => found,
            (best, None) => best,
        }
    }
}

/// What of a piece may go out before a stop string at `pos` of all the text,
/// `before` of which went out earlier.
pub open spec fn before_stop(all: Seq<char>, before: int, pos: int) -> Seq<char> {
    if pos > before {
        all.subrange(before, pos)
    } else {
        Seq::empty()
    }
}

impl StateView {
    /// Content goes out and is kept.
    pub open spec fn said(self, text: Seq<char>) -> StateView {
        StateView { content: self.content + text, ..self }
    }

    /// Reasoning goes out and is kept.
    pub open spec fn thought(self, text: Seq<char>) -> StateView {
        StateView { reasoning: self.reasoning + text, ..self }
    }

    /// The text that goes out of what a scanner made of a piece.
    pub open spec fn scan_text(scan: ScanView, enable_thinking: bool) -> Seq<char> {
        if !enable_thinking {
            Seq::empty()
        } else {
            match scan {
                ScanView::Continue { emit } => emit,
                ScanView::Transition { final_reasoning, .. } => final_reasoning,
            }
        }
    }

    /// After a scanner's result.
    pub open spec fn scanned(self, scan: ScanView, enable_thinking: bool) -> StateView {
        let s = self.thought(Self::scan_text(scan, enable_thinking));
        match scan {
            ScanView::Continue { .. } => s,
            ScanView::Transition { .. } => s.in_content(),
        }
    }

    /// After content that the detector let through: the state and what goes
    /// out. It goes out without leaked tags; where it runs in circles, it is
    /// the last that does.
    pub open spec fn passed<F>(self, text: Seq<char>, m: MarkerView) -> (
        StateView,
        Seq<WireView<F>>,
    ) {
        let (s, clean) = self.filtered(text, m);
        (s.said(clean).watched(clean), content_item(clean))
    }

    /// At the end of the content: the state, and what goes out of what was held
    /// back of it.
    pub open spec fn drained<F>(self, m: MarkerView) -> (StateView, Seq<WireView<F>>) {
        let rest = self.held_back(m);
        (self.let_go().said(rest), content_item(rest))
    }

    /// After a piece of content that is not empty: the state, what goes out at
    /// once, and what the detector is to see. Where a stop string ends the
    /// text, what stands before it goes out, all of it, and nothing more.
    pub open spec fn accepted<F>(self, delta: Seq<char>, rules: RulesView) -> (
        StateView,
        Seq<WireView<F>>,
        Option<Seq<char>>,
    ) {
        if self.phase == StreamPhase::Stopped {
            (self, Seq::empty(), None)
        } else if rules.stops.len() == 0 {
            (self, Seq::empty(), Some(delta))
        } else {
            let all = self.accumulated + delta;
            let s = StateView { accumulated: all, ..self };
            match stop_position(all, rules.stops, rules.stops.len()) {
                Some(pos) => {
                    let text = before_stop(all, self.accumulated.len() as int, pos);
                    let (t, w) = s.passed::<F>(text, rules.markers);
                    let (u, x) = t.drained::<F>(rules.markers);
                    (u.stopped(), w + x, None)
                },
                None => (s, Seq::empty(), Some(delta)),
            }
        }
    }

    /// After a part of a call: the state and what goes out.
    pub open spec fn called<F>(self, o: OutputView) -> (StateView, Seq<WireView<F>>) {
        match o {
            OutputView::Content(text) => (self, Seq::empty()),
            OutputView::ToolCall(c, idx) => (
                StateView { calls: self.calls.push(c), ..self },
                seq![
                    WireView::CallStart { id: c.id, name: c.name, idx },
                    WireView::CallArgs { args: c.arguments, idx },
                ],
            ),
            OutputView::ToolCallStart { id, name, idx } => (
                StateView {
                    pending: self.pending.insert(idx, AccView { id, name, args: Seq::empty() }),
                    ..self
                },
                seq![WireView::CallStart { id, name, idx }],
            ),
            OutputView::ToolCallDelta { args, idx } => (
                StateView {
                    pending: if self.pending.contains_key(idx) {
                        let a = self.pending[idx];
                        self.pending.insert(idx, AccView { args: a.args + args, ..a })
                    } else {
                        self.pending
                    },
                    ..self
                },
                args_item(args, idx),
            ),
            OutputView::ToolCallEnd { idx } => (
                if self.pending.contains_key(idx) {
                    StateView {
                        pending: self.pending.remove(idx),
                        calls: self.calls.push(whole_call(self.pending[idx])),
                        ..self
                    }
                } else {
                    self
                },
                Seq::empty(),
            ),
        }
    }

    /// After one detector output: the state and what goes out. A call too many
    /// ends the stream.
    pub open spec fn output<F>(self, o: OutputView, rules: RulesView) -> (
        StateView,
        Seq<WireView<F>>,
    ) {
        match o {
            OutputView::Content(text) => self.passed::<F>(text, rules.markers),
            _ => {
                let (s, w) = self.called::<F>(o);
                (s.counted(rules.max_tool_calls), w)
            },
        }
    }

    /// After some detector outputs. Those that follow the end of the stream are
    /// left out.
    pub open spec fn outputs<F>(self, outs: Seq<OutputView>, rules: RulesView) -> (
        StateView,
        Seq<WireView<F>>,
    )
        decreases outs.len(),
    {
        if outs.len() == 0 {
            (self, Seq::empty())
        } else {
            let (s, w) = self.outputs::<F>(outs.drop_last(), rules);
            if s.phase == StreamPhase::Stopped {
                (s, w)
            } else {
                let (t, x) = s.output::<F>(outs.last(), rules);
                (t, w + x)
            }
        }
    }

    /// The state once it is known that content has started or not.
    pub open spec fn started(self, chunk: Seq<char>) -> StateView {
        StateView {
            content_started: self.content_started || trimmed_delta(
                chunk,
                self.content_started,
            ).len() > 0,
            ..self
        }
    }

    /// What the detector is to see of a piece of content, if anything.
    pub open spec fn shown<F>(self, chunk: Seq<char>, rules: RulesView) -> Option<Seq<char>> {
        let delta = trimmed_delta(chunk, self.content_started);
        if delta.len() == 0 {
            None
        } else {
            self.started(chunk).accepted::<F>(delta, rules).2
        }
    }

    /// After a piece of content, where `outs` is what the detector makes of
    /// it; `None` where there is no detector.
    pub open spec fn content_step<F>(
        self,
        chunk: Seq<char>,
        rules: RulesView,
        outs: Option<Seq<OutputView>>,
    ) -> (StateView, Seq<WireView<F>>) {
        let delta = trimmed_delta(chunk, self.content_started);
        let s = self.started(chunk);
        if delta.len() == 0 {
            (s, Seq::empty())
        } else {
            let (t, w, rest) = s.accepted::<F>(delta, rules);
            match rest {
                Some(d) => {
                    let (n, x) = match outs {
                        Some(o) => t.outputs::<F>(o, rules),
                        None => t.passed::<F>(d, rules.markers),
                    };
                    (n, w + x)
                },
                None => (t, w),
            }
        }
    }

    /// After a piece of text. `scan` is what the scanner makes of it while
    /// thinking, where the model has one; `outs` what the detector makes of
    /// the content in it.
    pub open spec fn token<F>(
        self,
        chunk: Seq<char>,
        has_scanner: bool,
        enable_thinking: bool,
        rules: RulesView,
        scan: ScanView,
        outs: Option<Seq<OutputView>>,
    ) -> (StateView, Seq<WireView<F>>) {
        if self.phase != StreamPhase::Thinking {
            self.content_step(chunk, rules, outs)
        } else if !has_scanner {
            self.in_content().content_step(chunk, rules, outs)
        } else {
            let s = self.scanned(scan, enable_thinking);
            let w = reasoning_item::<F>(Self::scan_text(scan, enable_thinking));
            match scan {
                ScanView::Transition { content_start, .. } => if content_start.len() > 0 {
                    let (t, x) = s.content_step::<F>(content_start, rules, outs);
                    (t, w + x)
                } else {
                    (s, w)
                },
                ScanView::Continue { .. } => (s, w),
            }
        }
    }

    /// A text may have these results: the scanner's, made of the text while
    /// thinking, and the detector's, made of the content in it. `scanner` is
    /// the scanner in use, `left` and `after` what is left of the two.
    pub open spec fn token_reads<F, S: ThinkingScanner, D: ToolDetector>(
        self,
        chunk: Seq<char>,
        enable_thinking: bool,
        rules: RulesView,
        scanner: Option<S>,
        detector: Option<D>,
        scan: ScanView,
        outs: Option<Seq<OutputView>>,
        left: Option<S>,
        after: Option<D>,
    ) -> bool {
        if self.phase != StreamPhase::Thinking {
            detected(detector, self.shown::<F>(chunk, rules), outs, after)
        } else {
            match scanner {
                None => {
                    &&& left is None
                    &&& exists|d: Option<D>| #[trigger]
                        forgotten(detector, d) && detected(
                            d,
                            self.in_content().shown::<F>(chunk, rules),
                            outs,
                            after,
                        )
                },
                Some(x) => match scan {
                    ScanView::Continue { .. } => {
                        &&& left is Some
                        &&& x.scans(chunk, scan, left->0)
                        &&& detected(detector, None, outs, after)
                    },
                    ScanView::Transition { content_start, .. } => {
                        &&& left is None
                        &&& exists|y: S| x.scans(chunk, scan, y)
                        &&& exists|d: Option<D>| #[trigger]
                            forgotten(detector, d) && detected(
                                d,
                                if content_start.len() > 0 {
                                    self.scanned(scan, enable_thinking).shown::<F>(
                                        content_start,
                                        rules,
                                    )
                                } else {
                                    None
                                },
                                outs,
                                after,
                            )
                    },
                },
            }
        }
    }

    /// At the end of the text: what the detector held back, then what was held
    /// back of the content, then what the scanner held back. Once the stream
    /// has stopped, nothing more.
    pub open spec fn tails<F>(
        self,
        outs: Option<Seq<OutputView>>,
        tail: Option<Seq<char>>,
        rules: RulesView,
    ) -> (StateView, Seq<WireView<F>>) {
        if self.phase == StreamPhase::Stopped {
            (self, Seq::empty())
        } else {
            let (s, w) = match outs {
                Some(o) => self.outputs::<F>(o, rules),
                None => (self, Seq::empty()),
            };
            if s.phase == StreamPhase::Stopped {
                (s, w)
            } else {
                let (t, x) = s.drained::<F>(rules.markers);
                match tail {
                    Some(r) => (t.thought(r), w + x + reasoning_item::<F>(r)),
                    None => (t, w + x),
                }
            }
        }
    }
}

impl StreamState {
    /// Content goes out, unless it is empty.
    pub fn emit_content<F>(&mut self, text: &str, out: &mut Vec<Wire<F>>)
        ensures
            final(self)@ == old(self)@.said(text@),
            wire_views(final(out)@) == wire_views(old(out)@) + content_item::<F>(text@),
    {
        broadcast use lemma_wire_views_push;

        if !text.is_empty() {
            self.record_content(text);
            out.push(Wire::Content(own(text)));
        } else {
            assert(self@.content + text@ =~= self@.content);
        }
        assert(self@ =~= old(self)@.said(text@));
        assert(wire_views(out@) =~= wire_views(old(out)@) + content_item::<F>(text@));
    }

    /// Content that the detector let through goes out without leaked tags, and
    /// is watched for running in circles.
    pub fn pass_content<F>(&mut self, text: &str, markers: &LeakMarkers, out: &mut Vec<Wire<F>>)
        requires
            markers@.wf(),
        ensures
            final(self)@ == old(self)@.passed::<F>(text@, markers@).0,
            wire_views(final(out)@) == wire_views(old(out)@) + old(self)@.passed::<F>(
                text@,
                markers@,
            ).1,
    {
        let clean = self.filter(text, markers);
        self.emit_content(clean.as_str(), out);
        self.watch(clean.as_str());
    }

    /// What was held back of the content goes out, at its end.
    pub fn drain_content<F>(&mut self, markers: &LeakMarkers, out: &mut Vec<Wire<F>>)
        ensures
            final(self)@ == old(self)@.drained::<F>(markers@).0,
            wire_views(final(out)@) == wire_views(old(out)@) + old(self)@.drained::<F>(
                markers@,
            ).1,
    {
        let rest = self.release_tail(markers);
        self.emit_content(rest.as_str(), out);
    }

    /// Reasoning goes out, unless it is empty.
    pub fn emit_reasoning<F>(&mut self, text: &str, out: &mut Vec<Wire<F>>)
        ensures
            final(self)@ == old(self)@.thought(text@),
            wire_views(final(out)@) == wire_views(old(out)@) + reasoning_item::<F>(text@),
    {
        broadcast use lemma_wire_views_push;

        if !text.is_empty() {
            self.record_reasoning(text);
            out.push(Wire::Reasoning(own(text)));
        } else {
            assert(self@.reasoning + text@ =~= self@.reasoning);
        }
        assert(self@ =~= old(self)@.thought(text@));
        assert(wire_views(out@) =~= wire_views(old(out)@) + reasoning_item::<F>(text@));
    }

    /// Takes what the scanner made of a piece of text. Returns the content
    /// that follows the thinking, where the thinking ended and some does.
    pub fn thinking_step<F>(
        &mut self,
        scan: ThinkingScanResult,
        enable_thinking: bool,
        out: &mut Vec<Wire<F>>,
    ) -> (r: Option<String>)
        ensures
            final(self)@ == old(self)@.scanned(scan@, enable_thinking),
            wire_views(final(out)@) == wire_views(old(out)@) + reasoning_item::<F>(
                StateView::scan_text(scan@, enable_thinking),
            ),
            opt_view(r) == match scan@ {
                ScanView::Transition { content_start, .. } => if content_start.len() > 0 {
                    Some(content_start)
                } else {
                    None
                },
                ScanView::Continue { .. } => None,
            },
    {
        proof {
            reveal_strlit("");
            assert(""@ =~= Seq::<char>::empty());
        }
        match scan {
            ThinkingScanResult::Continue { emit } => {
                if enable_thinking {
                    self.emit_reasoning(emit.as_str(), out);
                } else {
                    self.emit_reasoning("", out);
                }
                None
            },
            ThinkingScanResult::Transition { final_reasoning, content_start } => {
                if enable_thinking {
                    self.emit_reasoning(final_reasoning.as_str(), out);
                } else {
                    self.emit_reasoning("", out);
                }
                let _entered = self.enter_content();
                if content_start.as_str().is_empty() {
                    None
                } else {
                    Some(content_start)
                }
            },
        }
    }

    /// Takes a piece of content that is not empty. Returns what the detector
    /// is to see of it.
    fn accept<F>(&mut self, delta: String, rules: &StreamRules, out: &mut Vec<Wire<F>>) -> (r:
        Option<String>)
        requires
            rules.markers@.wf(),
        ensures
            ({
                let (s, w, rest) = old(self)@.accepted::<F>(delta@, rules@);
                &&& final(self)@ == s
                &&& wire_views(final(out)@) == wire_views(old(out)@) + w
                &&& opt_view(r) == rest
            }),
    {
        let stops = &rules.stops;
        let ghost all = self@.accumulated + delta@;
        let ghost before = self@.accumulated.len() as int;
        let ghost sv = views(stops@);
        if self.is_stopped() {
            assert(wire_views(out@) =~= wire_views(old(out)@) + Seq::<WireView<F>>::empty());
            return None;
        }
        if stops.len() == 0 {
            assert(wire_views(out@) =~= wire_views(old(out)@) + Seq::<WireView<F>>::empty());
            return Some(delta);
        }
        let acc = chars_of(self.accumulate(delta.as_str()));
        let already: usize = acc.len() - chars_of(delta.as_str()).len();
        assert(already == before);
        let mut first: Option<usize> = None;
        let mut i: usize = 0;
        while i < stops.len()
            invariant
                i <= stops@.len(),
                sv == views(stops@),
                acc@ == all,
                match first {
                    Some(p) => p <= acc@.len() && stop_position(all, sv, i as nat) == Some(
                        p as int,
                    ),
                    None => stop_position(all, sv, i as nat) is None,
                },
            decreases stops@.len() - i,
        {
            let stop = chars_of(stops[i].as_str());
            assert(sv[i as int] == stops@[i as int]@);
            match find_chars(&acc, &stop, 0) {
                Some(pos) => {
                    let sooner = match first {
                        Some(p) => pos < p,
                        None => true,
                    };
                    if sooner {
                        first = Some(pos);
                    }
                },
                None => {},
            }
            i += 1;
        }
        if let Some(pos) = first {
            let text = if pos > already {
                string_of(&acc, already, pos)
            } else {
                String::new()
            };
            assert(text@ =~= before_stop(all, before, pos as int));
            let ghost w0 = wire_views(out@);
            self.pass_content(text.as_str(), &rules.markers, out);
            let ghost w1 = wire_views(out@);
            self.drain_content(&rules.markers, out);
            self.mark_stopped();
            proof {
                let (s, w, rest) = old(self)@.accepted::<F>(delta@, rules@);
                assert(wire_views(out@) =~= w0 + w);
            }
            return None;
        }
        assert(wire_views(out@) =~= wire_views(old(out)@) + Seq::<WireView<F>>::empty());
        Some(delta)
    }

    /// Takes one detector output.
    fn take_output<F>(&mut self, o: DetectorOutput, rules: &StreamRules, out: &mut Vec<Wire<F>>)
        requires
            rules.markers@.wf(),
        ensures
            final(self)@ == old(self)@.output::<F>(o@, rules@).0,
            wire_views(final(out)@) == wire_views(old(out)@) + old(self)@.output::<F>(
                o@,
                rules@,
            ).1,
    {
        broadcast use lemma_wire_views_push;

        let ghost ov = o@;
        let ghost called = old(self)@.called::<F>(ov);
        match o {
            DetectorOutput::Content(text) => {
                self.pass_content(text.as_str(), &rules.markers, out);
                return;
            },
            DetectorOutput::ToolCall(tc, idx) => {
                self.handle_complete_tool_call(tc, idx, out);
            },
            DetectorOutput::ToolCallStart { id, name, idx } => {
                self.handle_tool_call_start(id, name, idx, out);
            },
            DetectorOutput::ToolCallDelta { args, idx } => {
                self.handle_tool_call_delta(args, idx, out);
            },
            DetectorOutput::ToolCallEnd { idx } => {
                let _log = self.handle_tool_call_end(idx);
            },
        }
        assert(self@ =~= called.0);
        assert(wire_views(out@) =~= wire_views(old(out)@) + called.1);
        self.count_calls(rules.max_tool_calls);
    }

    /// A complete call goes out: its beginning, and all its arguments.
    pub fn handle_complete_tool_call<F>(
        &mut self,
        tc: crate::tools::ToolCall,
        idx: usize,
        out: &mut Vec<Wire<F>>,
    )
        ensures
            final(self)@ == (StateView { calls: old(self)@.calls.push(tc@), ..old(self)@ }),
            wire_views(final(out)@) == wire_views(old(out)@).push(
                WireView::CallStart { id: tc@.id, name: tc@.name, idx },
            ).push(WireView::CallArgs { args: tc@.arguments, idx }),
    {
        broadcast use lemma_wire_views_push;

        out.push(
            Wire::CallStart { id: tc.id.clone(), name: tc.function.name.clone(), idx },
        );
        out.push(Wire::CallArgs { args: tc.function.arguments.clone(), idx });
        self.record_tool_call(tc);
    }

    /// The beginning of a call goes out.
    pub fn handle_tool_call_start<F>(
        &mut self,
        id: String,
        name: String,
        idx: usize,
        out: &mut Vec<Wire<F>>,
    )
        ensures
            final(self)@ == old(self)@.called::<F>(
                OutputView::ToolCallStart { id: id@, name: name@, idx },
            ).0,
            wire_views(final(out)@) == wire_views(old(out)@).push(
                WireView::CallStart { id: id@, name: name@, idx },
            ),
    {
        broadcast use lemma_wire_views_push;

        out.push(Wire::CallStart { id: id.clone(), name: name.clone(), idx });
        self.begin_call(id, name, idx);
    }

    /// Some arguments of a call go out, unless they are empty.
    pub fn handle_tool_call_delta<F>(&mut self, args: String, idx: usize, out: &mut Vec<Wire<F>>)
        ensures
            final(self)@ == old(self)@.called::<F>(
                OutputView::ToolCallDelta { args: args@, idx },
            ).0,
            wire_views(final(out)@) == wire_views(old(out)@) + args_item::<F>(args@, idx),
    {
        broadcast use lemma_wire_views_push;

        self.extend_call(args.as_str(), idx);
        if !args.as_str().is_empty() {
            out.push(Wire::CallArgs { args, idx });
        }
        assert(wire_views(out@) =~= wire_views(old(out)@) + args_item::<F>(args@, idx));
    }

    /// A call ends. Hands out its name and its arguments for the log.
    pub fn handle_tool_call_end(&mut self, idx: usize) -> (r: Option<(String, String)>)
        ensures
            final(self)@ == old(self)@.called::<()>(OutputView::ToolCallEnd { idx }).0,
            (r is Some) == old(self)@.pending.contains_key(idx),
            r matches Some((name, args)) ==> name@ == old(self)@.pending[idx].name && args@
                == old(self)@.pending[idx].args,
    {
        self.end_call(idx)
    }

    /// Takes some detector outputs, up to the end of the stream.
    pub fn take_outputs<F>(
        &mut self,
        outputs: Vec<DetectorOutput>,
        rules: &StreamRules,
        out: &mut Vec<Wire<F>>,
    )
        requires
            rules.markers@.wf(),
        ensures
            final(self)@ == old(self)@.outputs::<F>(output_views(outputs@), rules@).0,
            wire_views(final(out)@) == wire_views(old(out)@) + old(self)@.outputs::<F>(
                output_views(outputs@),
                rules@,
            ).1,
    {
        let ghost all = output_views(outputs@);
        let ghost s0 = self@;
        let ghost rv = rules@;
        let mut rest = outputs;
        let ghost mut k: int = 0;
        assert(all.take(0) =~= Seq::<OutputView>::empty());
        assert(wire_views(out@) =~= wire_views(old(out)@) + Seq::<WireView<F>>::empty());
        while rest.len() > 0
            invariant
                0 <= k <= all.len(),
                rv == rules@,
                rules.markers@.wf(),
                output_views(rest@) == all.skip(k),
                self@ == s0.outputs::<F>(all.take(k), rv).0,
                wire_views(out@) == wire_views(old(out)@) + s0.outputs::<F>(
                    all.take(k),
                    rv,
                ).1,
            decreases rest@.len(),
        {
            let ghost held = output_views(rest@);
            assert(held.len() == rest@.len() && held[0] == rest@[0]@);
            let o = rest.remove(0);
            assert(held == all.skip(k));
            assert(output_views(rest@) =~= held.skip(1));
            assert(held.skip(1) =~= all.skip(k + 1));
            assert(o@ == all[k]);
            if !self.is_stopped() {
                self.take_output(o, rules, out);
            }
            proof {
                assert(all.take(k + 1).drop_last() =~= all.take(k));
                let (s, w) = s0.outputs::<F>(all.take(k), rv);
                let x = s.output::<F>(all[k], rv).1;
                assert(wire_views(old(out)@) + (w + x) =~= (wire_views(old(out)@) + w) + x);
                k = k + 1;
            }
        }
        assert(k == all.len());
        assert(all.take(k) =~= all);
    }

    /// Takes a piece of content, up to the detector. Returns what the detector
    /// is to see of it.
    pub fn content_begin<F>(&mut self, chunk: String, rules: &StreamRules, out: &mut Vec<Wire<F>>)
        -> (r: Option<String>)
        requires
            rules.markers@.wf(),
        ensures
            opt_view(r) == old(self)@.shown::<F>(chunk@, rules@),
            ({
                let delta = trimmed_delta(chunk@, old(self)@.content_started);
                let s = old(self)@.started(chunk@);
                if delta.len() == 0 {
                    final(self)@ == s && wire_views(final(out)@) == wire_views(old(out)@)
                } else {
                    let (t, w, rest) = s.accepted::<F>(delta, rules@);
                    final(self)@ == t && wire_views(final(out)@) == wire_views(old(out)@) + w
                }
            }),
    {
        let delta = self.trim_content(chunk);
        if delta.as_str().is_empty() {
            return None;
        }
        self.accept(delta, rules, out)
    }
}

/// The scanner in use: the one at hand, or else a fresh one.
pub open spec fn in_use<S>(scanner: Option<S>, fresh: Option<S>) -> Option<S> {
    if scanner is Some {
        scanner
    } else {
        fresh
    }
}

/// Takes the text that one token decoded to, if any. `fresh` is a new scanner
/// of the model, where it has one; it is used where thinking begins.
pub fn handle_token<F, S: ThinkingScanner, D: ToolDetector>(
    state: &mut StreamState,
    scanner: &mut Option<S>,
    detector: &mut Option<D>,
    fresh: Option<S>,
    enable_thinking: bool,
    rules: &StreamRules,
    decoded: Option<String>,
) -> (out: Vec<Wire<F>>)
    requires
        rules.markers@.wf(),
    ensures
        decoded is None ==> final(state)@ == old(state)@ && out@.len() == 0 && *final(scanner)
            == *old(scanner) && *final(detector) == *old(detector),
        decoded matches Some(chunk) ==> exists|scan: ScanView, outs: Option<Seq<OutputView>>|
            old(state)@.token_reads::<F, S, D>(
                chunk@,
                enable_thinking,
                rules@,
                in_use(*old(scanner), fresh),
                *old(detector),
                scan,
                outs,
                *final(scanner),
                *final(detector),
            ) && (final(state)@, wire_views(out@)) == #[trigger] old(state)@.token::<F>(
                chunk@,
                in_use(*old(scanner), fresh) is Some,
                enable_thinking,
                rules@,
                scan,
                outs,
            ),
        old(state)@.phase != StreamPhase::Thinking ==> *final(scanner) == *old(scanner),
{
    let mut out: Vec<Wire<F>> = Vec::new();
    assert(wire_views(out@) =~= Seq::<WireView<F>>::empty());
    let ghost s0 = state@;
    let ghost d0 = *detector;
    let ghost x0 = in_use(*scanner, fresh);
    let ghost any_scan = ScanView::Continue { emit: Seq::empty() };
    let ghost any_outs = if *detector is Some {
        Some(Seq::<OutputView>::empty())
    } else {
        None
    };
    let chunk = match decoded {
        Some(c) => c,
        None => return out,
    };
    let ghost cv = chunk@;
    let ghost rv = rules@;
    if !state.is_thinking() {
        let Ghost(outs) = run_content(state, detector, rules, chunk, &mut out);
        proof {
            assert(wire_views(out@) =~= s0.content_step::<F>(cv, rv, outs).1);
            assert(s0.token_reads::<F, S, D>(
                cv,
                enable_thinking,
                rv,
                x0,
                d0,
                any_scan,
                outs,
                *scanner,
                *detector,
            ));
            assert((state@, wire_views(out@)) == s0.token::<F>(
                cv,
                x0 is Some,
                enable_thinking,
                rv,
                any_scan,
                outs,
            ));
        }
        return out;
    }
    let mut held = scanner.take();
    if held.is_none() {
        held = fresh;
    }
    match held {
        None => {
            let _entered = state.enter_content();
            let ghost s1 = state@;
            reset_detector(detector);
            let ghost d1 = *detector;
            let Ghost(outs) = run_content(state, detector, rules, chunk, &mut out);
            proof {
                assert(wire_views(out@) =~= s1.content_step::<F>(cv, rv, outs).1);
                assert(forgotten(d0, d1));
                assert(s0.token_reads::<F, S, D>(
                    cv,
                    enable_thinking,
                    rv,
                    x0,
                    d0,
                    any_scan,
                    outs,
                    *scanner,
                    *detector,
                ));
                assert((state@, wire_views(out@)) == s0.token::<F>(
                    cv,
                    x0 is Some,
                    enable_thinking,
                    rv,
                    any_scan,
                    outs,
                ));
            }
        },
        Some(mut s) => {
            let scan = s.process(chunk.as_str());
            let ghost v = scan@;
            let rest = state.thinking_step(scan, enable_thinking, &mut out);
            let ghost s1 = state@;
            let ghost w1 = wire_views(out@);
            assert(x0->0.scans(cv, v, s));
            assert(w1 =~= reasoning_item::<F>(StateView::scan_text(v, enable_thinking)));
            if state.is_thinking() {
                *scanner = Some(s);
            } else {
                reset_detector(detector);
                assert(forgotten(d0, *detector));
            }
            match rest {
                Some(c) => {
                    let Ghost(outs) = run_content(state, detector, rules, c, &mut out);
                    proof {
                        assert(wire_views(out@) == w1 + s1.content_step::<F>(c@, rv, outs).1);
                        assert(s0.token_reads::<F, S, D>(
                            cv,
                            enable_thinking,
                            rv,
                            x0,
                            d0,
                            v,
                            outs,
                            *scanner,
                            *detector,
                        ));
                        assert((state@, wire_views(out@)) == s0.token::<F>(
                            cv,
                            x0 is Some,
                            enable_thinking,
                            rv,
                            v,
                            outs,
                        ));
                    }
                },
                None => {
                    proof {
                        assert(s0.token_reads::<F, S, D>(
                            cv,
                            enable_thinking,
                            rv,
                            x0,
                            d0,
                            v,
                            any_outs,
                            *scanner,
                            *detector,
                        ));
                        assert((state@, wire_views(out@)) == s0.token::<F>(
                            cv,
                            x0 is Some,
                            enable_thinking,
                            rv,
                            v,
                            any_outs,
                        ));
                    }
                },
            }
        },
    }
    out
}

/// Makes a detector, where there is one, forget what it holds back.
fn reset_detector<D: ToolDetector>(detector: &mut Option<D>)
    ensures
        forgotten(*old(detector), *final(detector)),
{
    match detector {
        Some(d) => {
            d.reset();
        },
        None => {},
    }
}

/// Takes a piece of content. Hands back what the detector made of it.
fn run_content<F, D: ToolDetector>(
    state: &mut StreamState,
    detector: &mut Option<D>,
    rules: &StreamRules,
    chunk: String,
    out: &mut Vec<Wire<F>>,
) -> (outs: Ghost<Option<Seq<OutputView>>>)
    requires
        rules.markers@.wf(),
    ensures
        detected(
            *old(detector),
            old(state)@.shown::<F>(chunk@, rules@),
            outs@,
            *final(detector),
        ),
        final(state)@ == old(state)@.content_step::<F>(chunk@, rules@, outs@).0,
        wire_views(final(out)@) == wire_views(old(out)@) + old(state)@.content_step::<F>(
            chunk@,
            rules@,
            outs@,
        ).1,
{
    let ghost cv = chunk@;
    let ghost rv = rules@;
    let ghost s0 = state@;
    let ghost w0 = wire_views(out@);
    let rest = state.content_begin(chunk, rules, out);
    let ghost s1 = state@;
    let ghost w1 = wire_views(out@);
    match rest {
        Some(delta) => {
            let mut held = detector.take();
            let outs: Ghost<Option<Seq<OutputView>>> = match &mut held {
                Some(d) => {
                    let outputs = d.process(delta.as_str());
                    let ghost ov = output_views(outputs@);
                    state.take_outputs(outputs, rules, out);
                    assert(wire_views(out@) =~= w0 + s0.content_step::<F>(cv, rv, Some(ov)).1);
                    Ghost(Some(ov))
                },
                None => {
                    state.pass_content(delta.as_str(), &rules.markers, out);
                    assert(wire_views(out@) =~= w0 + s0.content_step::<F>(cv, rv, None).1);
                    Ghost(None)
                },
            };
            *detector = held;
            outs
        },
        None => {
            assert(w1 =~= w0 + s0.content_step::<F>(cv, rv, None).1);
            if detector.is_some() {
                Ghost(Some(Seq::empty()))
            } else {
                Ghost(None)
            }
        },
    }
}

/// The finish reason at the end of a stream: a call that was found wins.
pub open spec fn end_reason(found_calls: bool, upstream: Seq<char>) -> Seq<char> {
    if found_calls {
        "tool_calls"@
    } else {
        upstream
    }
}

/// A detector, where there is one, may say this of whether a call was found.
pub open spec fn says_found<D: ToolDetector>(detector: Option<D>, found: bool) -> bool {
    match detector {
        Some(d) => d.says_found(found),
        None => !found,
    }
}

/// Ends a stream: gives out what the detector and the scanner held back, unless
/// it has stopped, and the usage. `found_calls` says whether the detector found a call. Returns
/// the tokens to give back.
pub fn finish_stream<F: Copy>(
    state: &mut StreamState,
    outputs: Option<Vec<DetectorOutput>>,
    tail: Option<String>,
    found_calls: bool,
    rules: &StreamRules,
    finish_reason: String,
    include_usage: bool,
    prompt_len: usize,
    reserved_tokens: Option<u64>,
    request_id: &str,
    inputs: &UsageInputs<F>,
    out: &mut Vec<Wire<F>>,
) -> (r: u64)
    requires
        rules.markers@.wf(),
        prompt_len + inputs.completion_tokens <= usize::MAX,
    ensures
        ({
            let (s, w) = old(state)@.tails::<F>(
                opt_output_views(outputs),
                opt_view(tail),
                rules@,
            );
            &&& final(state)@ == s
            &&& wire_views(final(out)@) == wire_views(old(out)@) + w + end_items(
                include_usage,
                end_reason(found_calls, finish_reason@),
                usage_of(prompt_len, *inputs, request_id@),
            )
        }),
        r == match reserved_tokens {
            Some(n) => refund_due(n, prompt_len + inputs.completion_tokens),
            None => 0,
        },
{
    let ghost s0 = state@;
    let ghost w0 = wire_views(out@);
    let ghost ov = opt_output_views(outputs);
    let ghost tv = opt_view(tail);
    if !state.is_stopped() {
        if let Some(o) = outputs {
            state.take_outputs(o, rules, out);
        }
        if !state.is_stopped() {
            state.drain_content(&rules.markers, out);
            if let Some(t) = tail {
                state.emit_reasoning(t.as_str(), out);
            }
        }
    }
    assert(wire_views(out@) =~= w0 + s0.tails::<F>(ov, tv, rules@).1);
    let usage = usage_from(prompt_len, inputs, request_id);
    let fr = if found_calls {
        own("tool_calls")
    } else {
        finish_reason
    };
    push_end(out, include_usage, fr, usage);
    match reserved_tokens {
        Some(n) => refund(n, prompt_len, inputs.completion_tokens),
        None => 0,
    }
}

/// Ends a stream: makes the detector and the scanner give out what they held
/// back, and ends the stream with it.
pub fn handle_done<F: Copy, S: ThinkingScanner, D: ToolDetector>(
    state: &mut StreamState,
    scanner: Option<S>,
    detector: &mut Option<D>,
    rules: &StreamRules,
    finish_reason: String,
    include_usage: bool,
    prompt_len: usize,
    reserved_tokens: Option<u64>,
    request_id: &str,
    inputs: &UsageInputs<F>,
) -> (r: (Vec<Wire<F>>, u64))
    requires
        rules.markers@.wf(),
        prompt_len + inputs.completion_tokens <= usize::MAX,
    ensures
        exists|outs: Option<Seq<OutputView>>, tail: Option<Seq<char>>, found: bool|
            released(*old(detector), outs, *final(detector)) && tail_released(scanner, tail)
                && says_found(*final(detector), found) && final(state)@ == (#[trigger] old(
                state,
            )@.tails::<F>(outs, tail, rules@)).0 && wire_views(r.0@) == old(state)@.tails::<F>(
                outs,
                tail,
                rules@,
            ).1 + end_items(
                include_usage,
                #[trigger] end_reason(found, finish_reason@),
                usage_of(prompt_len, *inputs, request_id@),
            ),
        r.1 == match reserved_tokens {
            Some(n) => refund_due(n, prompt_len + inputs.completion_tokens),
            None => 0,
        },
{
    let ghost s0 = state@;
    let ghost d0 = *detector;
    let mut outputs: Option<Vec<DetectorOutput>> = None;
    let mut found = false;
    match detector {
        Some(d) => {
            outputs = Some(d.flush());
            found = d.has_tool_calls();
        },
        None => {},
    }
    let mut tail: Option<String> = None;
    match scanner {
        Some(mut s) => {
            tail = Some(s.flush());
        },
        None => {},
    }
    let ghost ov = opt_output_views(outputs);
    let ghost tv = opt_view(tail);
    let mut out: Vec<Wire<F>> = Vec::new();
    let ghost fv = finish_reason@;
    assert(wire_views(out@) =~= Seq::<WireView<F>>::empty());
    let refunded = finish_stream(
        state,
        outputs,
        tail,
        found,
        rules,
        finish_reason,
        include_usage,
        prompt_len,
        reserved_tokens,
        request_id,
        inputs,
        &mut out,
    );
    proof {
        assert(released(d0, ov, *detector));
        assert(tail_released(scanner, tv));
        let w = s0.tails::<F>(ov, tv, rules@).1;
        let e = end_reason(found, fv);
        assert(Seq::<WireView<F>>::empty() + w =~= w);
        assert(wire_views(out@) == w + end_items(
            include_usage,
            e,
            usage_of(prompt_len, *inputs, request_id@),
        ));
    }
    (out, refunded)
}

/// Once a stream has stopped, no text and no call goes out, neither of a token
/// nor at the end.
pub proof fn law_stopped_is_silent<F>(
    s: StateView,
    chunk: Seq<char>,
    has_scanner: bool,
    enable_thinking: bool,
    rules: RulesView,
    scan: ScanView,
    outs: Option<Seq<OutputView>>,
    tail: Option<Seq<char>>,
)
    requires
        s.phase == StreamPhase::Stopped,
    ensures
        s.token::<F>(chunk, has_scanner, enable_thinking, rules, scan, outs).0.phase
            == StreamPhase::Stopped,
        s.token::<F>(chunk, has_scanner, enable_thinking, rules, scan, outs).1.len() == 0,
        s.tails::<F>(outs, tail, rules) == (s, Seq::<WireView<F>>::empty()),
{
}

/// The stop string that stands first ends a stream: none of them stands in the
/// text before it.
pub proof fn law_first_stop_ends(acc: Seq<char>, stops: Seq<Seq<char>>, n: nat)
    requires
        n <= stops.len(),
    ensures
        match stop_position(acc, stops, n) {
            Some(p) => {
                &&& 0 <= p <= acc.len()
                &&& exists|j: int| 0 <= j < n && #[trigger] occurs_at(acc, stops[j], p)
                &&& forall|j: int, q: int|
                    0 <= j < n && #[trigger] occurs_at(acc, stops[j], q) ==> p <= q
            },
            None => forall|j: int, q: int| 0 <= j < n ==> !#[trigger] occurs_at(acc, stops[j], q),
        },
    decreases n,
{
    if n > 0 {
        law_first_stop_ends(acc, stops, (n - 1) as nat);
        lemma_find_from(acc, stops[n - 1], 0);
        if let Some(p) = find(acc, stops[n - 1]) {
            assert(occurs_at(acc, stops[n - 1], p));
        }
    }
}

/// Content that runs in circles is the last that goes out, and so is a call
/// too many: the stream has stopped after it.
pub proof fn law_circles_and_calls_stop<F>(s: StateView, o: OutputView, rules: RulesView)
    ensures
        ({
            let t = s.output::<F>(o, rules).0;
            &&& t.looped && !s.looped ==> t.phase == StreamPhase::Stopped
            &&& !(o is Content) && t.calls.len() > rules.max_tool_calls ==> t.phase
                == StreamPhase::Stopped
        }),
{
}

} // verus!

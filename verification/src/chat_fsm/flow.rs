//! Nothing that a scanner or a detector says is lost on its way to the events.
use vstd::prelude::*;
use crate::bytes::byte_len;
use crate::chat_fsm::choice_builder::{content_text, reasoning_text, BuilderView};
use crate::chat_fsm::events::{EventView, StopView};
use crate::chat_fsm::laws::{complete, run, StepInput};
use crate::chat_fsm::stepper::{
    args_event, content_event, reasoning_event, tail_event, CoreView, ScanView, Stepper,
    ThinkingScanner, ToolDetector,
};
use crate::chat_fsm::stop_predicate::{
    first_stop, lemma_first_stop, longest_first, OutcomeView, StopModel,
};
use crate::text::{occurs_at, CharSet};
use crate::tools::OutputView;
use crate::trim::trim_start;

verus! {

/// What is said in all, with the arguments of one call.
#[verifier::ext_equal]
pub struct Said {
    pub reasoning: Seq<char>,
    pub content: Seq<char>,
    /// The calls that begin: identifier, name and index.
    pub starts: Seq<(Seq<char>, Seq<char>, usize)>,
    /// The arguments of the call that is looked at.
    pub args: Seq<char>,
    /// The indices of the calls that end.
    pub ends: Seq<usize>,
}

impl Said {
    pub open spec fn nothing() -> Said {
        Said {
            reasoning: Seq::empty(),
            content: Seq::empty(),
            starts: Seq::empty(),
            args: Seq::empty(),
            ends: Seq::empty(),
        }
    }

    pub open spec fn thought(t: Seq<char>) -> Said {
        Said { reasoning: t, ..Said::nothing() }
    }

    pub open spec fn text(t: Seq<char>) -> Said {
        Said { content: t, ..Said::nothing() }
    }

    /// What of it is heard: that a call ends is not.
    pub open spec fn heard(self) -> Said {
        Said { ends: Seq::empty(), ..self }
    }

    /// One after the other.
    pub open spec fn and(self, more: Said) -> Said {
        Said {
            reasoning: self.reasoning + more.reasoning,
            content: self.content + more.content,
            starts: self.starts + more.starts,
            args: self.args + more.args,
            ends: self.ends + more.ends,
        }
    }
}

pub proof fn lemma_and(a: Said, b: Said, c: Said)
    ensures
        a.and(Said::nothing()) == a,
        Said::nothing().and(a) == a,
        a.and(b).and(c) == a.and(b.and(c)),
{
    assert(a.and(Said::nothing()) =~= a);
    assert(Said::nothing().and(a) =~= a);
    assert(a.and(b).and(c) =~= a.and(b.and(c)));
}

/// What one event says, of the arguments those of the call `call`.
pub open spec fn event_says(e: EventView, call: usize) -> Said {
    match e {
        EventView::ReasoningDelta(t) => Said::thought(t),
        EventView::ContentDelta(t) => Said::text(t),
        EventView::ToolCallStart { id, name, idx } => Said {
            starts: seq![(id, name, idx)],
            ..Said::nothing()
        },
        EventView::ToolCallArgDelta { args, idx } => if idx == call {
            Said { args, ..Said::nothing() }
        } else {
            Said::nothing()
        },
        EventView::ToolCallEnd { idx } => Said { ends: seq![idx], ..Said::nothing() },
        EventView::Stopped { .. } => Said::nothing(),
    }
}

/// What some events say.
pub open spec fn events_say(s: Seq<EventView>, call: usize) -> Said
    decreases s.len(),
{
    if s.len() == 0 {
        Said::nothing()
    } else {
        events_say(s.drop_last(), call).and(event_says(s.last(), call))
    }
}

/// What one output of a detector says.
pub open spec fn output_says(o: OutputView, call: usize) -> Said {
    match o {
        OutputView::Content(t) => Said::text(t),
        OutputView::ToolCall(c, idx) => Said {
            starts: seq![(c.id, c.name, idx)],
            args: if idx == call {
                c.arguments
            } else {
                Seq::empty()
            },
            ends: seq![idx],
            ..Said::nothing()
        },
        OutputView::ToolCallStart { id, name, idx } => Said {
            starts: seq![(id, name, idx)],
            ..Said::nothing()
        },
        OutputView::ToolCallDelta { args, idx } => if idx == call {
            Said { args, ..Said::nothing() }
        } else {
            Said::nothing()
        },
        OutputView::ToolCallEnd { idx } => Said { ends: seq![idx], ..Said::nothing() },
    }
}

/// What some outputs of a detector say.
pub open spec fn outputs_say(s: Seq<OutputView>, call: usize) -> Said
    decreases s.len(),
{
    if s.len() == 0 {
        Said::nothing()
    } else {
        outputs_say(s.drop_last(), call).and(output_says(s.last(), call))
    }
}

pub proof fn lemma_events_say_add(a: Seq<EventView>, b: Seq<EventView>, call: usize)
    ensures
        events_say(a + b, call) == events_say(a, call).and(events_say(b, call)),
    decreases b.len(),
{
    if b.len() == 0 {
        assert(a + b =~= a);
        lemma_and(events_say(a, call), Said::nothing(), Said::nothing());
    } else {
        lemma_events_say_add(a, b.drop_last(), call);
        assert((a + b).drop_last() =~= a + b.drop_last());
        lemma_and(
            events_say(a, call),
            events_say(b.drop_last(), call),
            event_says(b.last(), call),
        );
    }
}

pub proof fn lemma_outputs_say_add(a: Seq<OutputView>, b: Seq<OutputView>, call: usize)
    ensures
        outputs_say(a + b, call) == outputs_say(a, call).and(outputs_say(b, call)),
    decreases b.len(),
{
    if b.len() == 0 {
        assert(a + b =~= a);
        lemma_and(outputs_say(a, call), Said::nothing(), Said::nothing());
    } else {
        lemma_outputs_say_add(a, b.drop_last(), call);
        assert((a + b).drop_last() =~= a + b.drop_last());
        lemma_and(
            outputs_say(a, call),
            outputs_say(b.drop_last(), call),
            output_says(b.last(), call),
        );
    }
}

pub proof fn lemma_event_says_one(e: EventView, call: usize)
    ensures
        events_say(seq![e], call) == event_says(e, call),
{
    reveal_with_fuel(events_say, 2);
    assert(seq![e].drop_last() =~= Seq::<EventView>::empty());
    lemma_and(event_says(e, call), Said::nothing(), Said::nothing());
}

pub proof fn lemma_output_says_one(o: OutputView, call: usize)
    ensures
        outputs_say(seq![o], call) == output_says(o, call),
{
    reveal_with_fuel(outputs_say, 2);
    assert(seq![o].drop_last() =~= Seq::<OutputView>::empty());
    lemma_and(output_says(o, call), Said::nothing(), Said::nothing());
}

/// The text that a record rolls up is the one that its events say.
pub proof fn lemma_says_texts(s: Seq<EventView>, call: usize)
    ensures
        events_say(s, call).content == content_text(s),
        events_say(s, call).reasoning == reasoning_text(s),
    decreases s.len(),
{
    if s.len() > 0 {
        lemma_says_texts(s.drop_last(), call);
        assert(content_text(s.drop_last()) + Seq::<char>::empty() =~= content_text(s.drop_last()));
        assert(reasoning_text(s.drop_last()) + Seq::<char>::empty() =~= reasoning_text(
            s.drop_last(),
        ));
    }
}

proof fn lemma_deltas(t: Seq<char>, call: usize, idx: usize)
    ensures
        events_say(content_event(t), call) == Said::text(t),
        events_say(reasoning_event(t), call) == Said::thought(t),
        events_say(args_event(t, idx), call) == (Said {
            args: if idx == call {
                t
            } else {
                Seq::empty()
            },
            ..Said::nothing()
        }),
{
    if t.len() == 0 {
        assert(t =~= Seq::<char>::empty());
    } else {
        lemma_event_says_one(EventView::ContentDelta(t), call);
        lemma_event_says_one(EventView::ReasoningDelta(t), call);
        lemma_event_says_one(EventView::ToolCallArgDelta { args: t, idx }, call);
    }
}

proof fn lemma_emit_says(m: CoreView, t: Seq<char>, call: usize)
    requires
        !m.emit(t).0.stopped,
    ensures
        events_say(m.emit(t).1, call) == Said::text(t),
{
    lemma_deltas(t, call, call);
}

/// While a completion goes on, all that the detector says goes out, in its
/// order: the content, the beginnings of the calls, the arguments of each call
/// and the ends.
pub proof fn law_outputs_reach_the_events(m: CoreView, outs: Seq<OutputView>, call: usize)
    requires
        !m.dispatch(outs).0.stopped,
    ensures
        events_say(m.dispatch(outs).1, call) == outputs_say(outs, call),
    decreases outs.len(),
{
    if outs.len() > 0 {
        let o = outs[0];
        let rest = outs.drop_first();
        let (n, e) = m.dispatch_one(o);
        lemma_stays_stopped(n, rest);
        law_outputs_reach_the_events(n, rest, call);
        assert(outs =~= seq![o] + rest);
        lemma_outputs_say_add(seq![o], rest, call);
        lemma_output_says_one(o, call);
        lemma_events_say_add(e, n.dispatch(rest).1, call);
        match o {
            OutputView::Content(t) => {
                if t.len() == 0 {
                    assert(t =~= Seq::<char>::empty());
                } else {
                    lemma_emit_says(m, t, call);
                }
            },
            OutputView::ToolCall(c, idx) => {
                let a = EventView::ToolCallStart { id: c.id, name: c.name, idx };
                let z = EventView::ToolCallEnd { idx };
                lemma_event_says_one(a, call);
                lemma_deltas(c.arguments, call, idx);
                lemma_event_says_one(z, call);
                lemma_events_say_add(seq![a], args_event(c.arguments, idx), call);
                lemma_events_say_add(seq![a] + args_event(c.arguments, idx), seq![z], call);
                assert(events_say(e, call) =~= output_says(o, call));
            },
            OutputView::ToolCallStart { id, name, idx } => {
                lemma_event_says_one(EventView::ToolCallStart { id, name, idx }, call);
            },
            OutputView::ToolCallDelta { args, idx } => {
                lemma_deltas(args, call, idx);
                assert(events_say(e, call) =~= output_says(o, call));
            },
            OutputView::ToolCallEnd { idx } => {
                lemma_event_says_one(EventView::ToolCallEnd { idx }, call);
            },
        }
    }
}

proof fn lemma_stays_stopped(m: CoreView, outs: Seq<OutputView>)
    ensures
        m.stopped ==> m.dispatch(outs).0.stopped,
{
}

/// The arguments that the state keeps of a call are those that the detector
/// said, behind those that it had.
pub proof fn law_state_keeps_arguments(m: CoreView, outs: Seq<OutputView>, call: usize)
    requires
        !m.dispatch(outs).0.stopped,
        m.acc.contains_key(call),
        forall|i: int| 0 <= i < outs.len() ==> !begins(#[trigger] outs[i], call),
    ensures
        m.dispatch(outs).0.acc.contains_key(call),
        m.dispatch(outs).0.acc[call].args == m.acc[call].args + outputs_say(outs, call).args,
        m.dispatch(outs).0.acc[call].id == m.acc[call].id,
        m.dispatch(outs).0.acc[call].name == m.acc[call].name,
    decreases outs.len(),
{
    if outs.len() == 0 {
        assert(m.acc[call].args + Seq::<char>::empty() =~= m.acc[call].args);
    } else {
        let o = outs[0];
        let rest = outs.drop_first();
        let n = m.dispatch_one(o).0;
        assert(!begins(outs[0], call));
        lemma_stays_stopped(n, rest);
        assert forall|i: int| 0 <= i < rest.len() implies !begins(#[trigger] rest[i], call) by {
            assert(rest[i] == outs[i + 1]);
        }
        law_state_keeps_arguments(n, rest, call);
        assert(outs =~= seq![o] + rest);
        lemma_outputs_say_add(seq![o], rest, call);
        lemma_output_says_one(o, call);
        assert(m.dispatch(outs).0.acc[call].args =~= m.acc[call].args + outputs_say(
            outs,
            call,
        ).args);
    }
}

/// The output begins this call.
pub open spec fn begins(o: OutputView, call: usize) -> bool {
    match o {
        OutputView::ToolCall(_, idx) => idx == call,
        OutputView::ToolCallStart { idx, .. } => idx == call,
        _ => false,
    }
}

/// What a piece of content says: what the detector makes of it, or the piece
/// itself; leading white space aside, as long as no other content has come.
pub open spec fn content_says(
    started: bool,
    chunk: Seq<char>,
    outs: Option<Seq<OutputView>>,
    call: usize,
) -> Said {
    let text = if started {
        chunk
    } else {
        trim_start(chunk, CharSet::White)
    };
    if !started && text.len() == 0 {
        Said::nothing()
    } else {
        match outs {
            Some(o) => outputs_say(o, call),
            None => Said::text(text),
        }
    }
}

/// What a step is given to say: while thinking what the scanner says, and the
/// content behind it.
pub open spec fn step_says(m: CoreView, i: StepInput, call: usize) -> Said {
    match i.chunk {
        None => Said::nothing(),
        Some(chunk) => if m.thinking {
            match i.scan {
                ScanView::Continue { emit } => Said::thought(emit),
                ScanView::Transition { final_reasoning, content_start } => Said::thought(
                    final_reasoning,
                ).and(
                    if content_start.len() > 0 {
                        content_says(false, content_start, i.outs, call)
                    } else {
                        Said::nothing()
                    },
                ),
            }
        } else {
            content_says(m.content_started, chunk, i.outs, call)
        },
    }
}

proof fn lemma_feed_says(
    m: CoreView,
    chunk: Seq<char>,
    outs: Option<Seq<OutputView>>,
    call: usize,
)
    requires
        !m.feed_content(chunk, outs).0.stopped,
    ensures
        events_say(m.feed_content(chunk, outs).1, call) == content_says(
            m.content_started,
            chunk,
            outs,
            call,
        ),
{
    if let Some(delta) = m.content_delta(chunk) {
        match outs {
            Some(o) => law_outputs_reach_the_events(m.content_seen(), o, call),
            None => lemma_emit_says(m.content_seen(), delta, call),
        }
    }
}

/// While a completion goes on, a step says what the scanner and the detector
/// said, or the text itself where there is no detector; and it thinks on until
/// the scanner finds the end of the thinking.
pub proof fn law_step_says_all(m: CoreView, i: StepInput, call: usize)
    requires
        !m.step(i.chunk, i.scan, i.outs).0.stopped,
    ensures
        events_say(m.step(i.chunk, i.scan, i.outs).1, call) == step_says(m, i, call),
        m.step(i.chunk, i.scan, i.outs).0.thinking == (m.thinking && !(i.chunk is Some && i.scan is Transition)),
{
    if let Some(chunk) = i.chunk {
        lemma_dispatch_thinks(m, i.outs);
        lemma_dispatch_thinks(m.enter_content(), i.outs);
        if m.thinking {
            match i.scan {
                ScanView::Continue { emit } => lemma_deltas(emit, call, call),
                ScanView::Transition { final_reasoning, content_start } => {
                    let r = Said::thought(final_reasoning);
                    lemma_deltas(final_reasoning, call, call);
                    lemma_and(r, r, r);
                    if content_start.len() > 0 {
                        let n = m.enter_content();
                        lemma_feed_says(n, content_start, i.outs, call);
                        lemma_events_say_add(
                            reasoning_event(final_reasoning),
                            n.feed_content(content_start, i.outs).1,
                            call,
                        );
                    }
                },
            }
        } else {
            lemma_feed_says(m, chunk, i.outs, call);
        }
    }
}

proof fn lemma_dispatch_thinks(m: CoreView, outs: Option<Seq<OutputView>>)
    ensures
        outs matches Some(o) ==> m.content_seen().dispatch(o).0.thinking == m.thinking,
{
    if let Some(o) = outs {
        lemma_dispatch_keeps_thinking(m.content_seen(), o);
    }
}

proof fn lemma_dispatch_keeps_thinking(m: CoreView, outs: Seq<OutputView>)
    ensures
        m.dispatch(outs).0.thinking == m.thinking,
    decreases outs.len(),
{
    if outs.len() > 0 && !m.stopped {
        lemma_dispatch_keeps_thinking(m.dispatch_one(outs[0]).0, outs.drop_first());
    }
}

/// What some steps are given to say.
pub open spec fn steps_say(m: CoreView, ins: Seq<StepInput>, call: usize) -> Said
    decreases ins.len(),
{
    if ins.len() == 0 {
        Said::nothing()
    } else {
        let less = ins.drop_last();
        steps_say(m, less, call).and(step_says(run(m, less).0, ins.last(), call))
    }
}

proof fn lemma_dispatch_runs(m: CoreView, outs: Seq<OutputView>)
    requires
        m.stop is None,
    ensures
        m.dispatch(outs).0.stop is None,
        m.dispatch(outs).0.stopped == m.stopped,
    decreases outs.len(),
{
    if outs.len() > 0 && !m.stopped {
        lemma_dispatch_runs(m.dispatch_one(outs[0]).0, outs.drop_first());
    }
}

proof fn lemma_run_says(m: CoreView, ins: Seq<StepInput>, call: usize)
    requires
        m.stop is None,
        !m.stopped,
    ensures
        run(m, ins).0.stop is None,
        !run(m, ins).0.stopped,
        events_say(run(m, ins).1, call) == steps_say(m, ins, call),
    decreases ins.len(),
{
    if ins.len() > 0 {
        let less = ins.drop_last();
        let i = ins.last();
        lemma_run_says(m, less, call);
        let n = run(m, less).0;
        if let Some(o) = i.outs {
            lemma_dispatch_runs(n.content_seen(), o);
            lemma_dispatch_runs(n.enter_content().content_seen(), o);
        }
        law_step_says_all(n, i, call);
        lemma_events_say_add(run(m, less).1, n.step(i.chunk, i.scan, i.outs).1, call);
    }
}

/// Without stop strings a whole completion says, in order, all that its steps
/// were given to say and what the scanner and the detector held back, and ends
/// with the scheduler's word.
pub proof fn law_completion_says_all(
    m: CoreView,
    ins: Seq<StepInput>,
    tail: Option<Seq<char>>,
    outs: Option<Seq<OutputView>>,
    reason: Seq<char>,
    call: usize,
)
    requires
        m.stop is None,
        !m.stopped,
    ensures
        events_say(complete(m, ins, tail, outs, reason).1, call) == steps_say(m, ins, call).and(
            match tail {
                Some(t) => Said::thought(t),
                None => Said::nothing(),
            },
        ).and(
            match outs {
                Some(o) => outputs_say(o, call),
                None => Said::nothing(),
            },
        ),
        complete(m, ins, tail, outs, reason).1.last() == (EventView::Stopped {
            reason: StopView::Upstream(reason),
        }),
{
    lemma_run_says(m, ins, call);
    let (n, e) = run(m, ins);
    let (k, f) = n.finish(tail, outs, reason);
    lemma_events_say_add(e, f, call);
    let z = EventView::Stopped { reason: StopView::Upstream(reason) };
    lemma_event_says_one(z, call);
    let r = tail_event(tail);
    let none = Said::nothing();
    if let Some(t) = tail {
        lemma_deltas(t, call, call);
    }
    let g = match outs {
        Some(o) => n.dispatch(o).1,
        None => Seq::empty(),
    };
    if let Some(o) = outs {
        lemma_dispatch_runs(n, o);
        law_outputs_reach_the_events(n, o, call);
    }
    lemma_events_say_add(r, g, call);
    lemma_events_say_add(r + g, seq![z], call);
    let a = events_say(e, call);
    let b = events_say(r, call);
    let c = events_say(g, call);
    lemma_and(b.and(c), none, none);
    lemma_and(a, b, c);
}

/// Where a stop string ends the content, all that stands before it goes out and
/// the stop string is named: it is the one that stands first, and of those
/// that stand there a longest.
pub proof fn law_stop_string_ends(m: CoreView, p: StopModel, text: Seq<char>, call: usize)
    requires
        m.stop == Some(p),
        longest_first(p.stops),
        exists|j: int, q: int|
            0 <= j < p.stops.len() && #[trigger] occurs_at(p.accumulated + text, p.stops[j], q),
    ensures
        ({
            let (n, f) = m.emit(text);
            let all = p.accumulated + text;
            &&& n.stopped
            &&& f.len() > 0
            &&& exists|at: int, k: int|
                {
                    &&& 0 <= k < p.stops.len()
                    &&& #[trigger] occurs_at(all, p.stops[k], at)
                    &&& f.last() == (EventView::Stopped {
                        reason: StopView::StopString(p.stops[k]),
                    })
                    &&& events_say(f, call) == Said::text(
                        if at > p.accumulated.len() {
                            all.subrange(p.accumulated.len() as int, at)
                        } else {
                            Seq::empty()
                        },
                    )
                    &&& forall|j: int, q: int|
                        0 <= j < p.stops.len() && #[trigger] occurs_at(all, p.stops[j], q) ==> at
                            <= q && (at == q ==> byte_len(p.stops[j]) <= byte_len(p.stops[k]))
                }
        }),
{
    let all = p.accumulated + text;
    lemma_first_stop(p.stops, all, p.stops.len());
    match p.outcome(text) {
        OutcomeView::Pass => {},
        OutcomeView::Fire { safe_prefix, matched } => {
            let z = EventView::Stopped { reason: StopView::StopString(matched) };
            lemma_deltas(safe_prefix, call, call);
            lemma_event_says_one(z, call);
            lemma_events_say_add(content_event(safe_prefix), seq![z], call);
            lemma_and(Said::text(safe_prefix), Said::nothing(), Said::nothing());
            let f = m.emit(text).1;
            let (at, k) = first_stop(p.stops, all, p.stops.len())->0;
            assert(occurs_at(all, p.stops[k], at));
        },
    }
}

/// The arguments that a record holds of a call that has not ended are those of
/// its events, whatever other events come between them.
pub proof fn law_record_keeps_arguments(b: BuilderView, s: Seq<EventView>, call: usize)
    requires
        b.pending.contains_key(call),
        forall|i: int| 0 <= i < s.len() ==> !about(#[trigger] s[i], call),
    ensures
        b.applied_all(s).pending.contains_key(call),
        b.applied_all(s).pending[call].args == b.pending[call].args + events_say(s, call).args,
        b.applied_all(s).pending[call].id == b.pending[call].id,
        b.applied_all(s).pending[call].name == b.pending[call].name,
    decreases s.len(),
{
    if s.len() == 0 {
        assert(b.pending[call].args + Seq::<char>::empty() =~= b.pending[call].args);
    } else {
        let less = s.drop_last();
        assert(!about(s[s.len() - 1], call));
        assert forall|i: int| 0 <= i < less.len() implies !about(#[trigger] less[i], call) by {
            assert(less[i] == s[i]);
        }
        law_record_keeps_arguments(b, less, call);
        assert(b.applied_all(s).pending[call].args =~= b.pending[call].args + events_say(
            s,
            call,
        ).args);
    }
}

/// The event begins or ends this call.
pub open spec fn about(e: EventView, call: usize) -> bool {
    match e {
        EventView::ToolCallStart { idx, .. } => idx == call,
        EventView::ToolCallEnd { idx } => idx == call,
        _ => false,
    }
}

/// While a completion thinks, its scanner is handed all that comes; once it does
/// not, its detector is handed all the content, from the first that is not
/// white space on, and what it held back is given out at the end.
pub proof fn law_scanner_and_detector_see_all<S: ThinkingScanner, D: ToolDetector>(
    s: Stepper<S, D>,
    c: Seq<char>,
    scan: ScanView,
    outs: Option<Seq<OutputView>>,
    tail: Option<Seq<char>>,
    next: Stepper<S, D>,
)
    requires
        !s.model().stopped,
    ensures
        s.reads(Some(c), scan, outs, next) && s.model().thinking ==> exists|left: S|
            s.scanner()->0.scans(c, scan, left),
        s.reads(Some(c), scan, outs, next) && !s.model().thinking && s.model().content_started ==> (
        s.detector() matches Some(d) ==> next.detector() is Some && outs is Some && d.detects(
            c,
            outs->0,
            next.detector()->0,
        )),
        s.reads(Some(c), scan, outs, next) && !s.model().thinking && !s.model().content_started
            && trim_start(c, CharSet::White).len() > 0 ==> (s.detector() matches Some(d)
            ==> next.detector() is Some && outs is Some && d.detects(
            trim_start(c, CharSet::White),
            outs->0,
            next.detector()->0,
        )),
        s.reads(Some(c), scan, outs, next) && s.detector() is None ==> outs is None || s.model().thinking,
        s.ends(tail, outs, next) ==> (s.detector() matches Some(d) ==> next.detector() is Some
            && outs is Some && d.holds_back(outs->0, next.detector()->0)),
        s.ends(tail, outs, next) ==> (s.scanner() matches Some(x) ==> tail is Some && x.holds_back(
            tail->0,
        )),
{
}

} // verus!

//! What holds of every completion, whatever its scanner and its detector do.
use vstd::prelude::*;
use crate::chat_fsm::choice_builder::content_text;
use crate::chat_fsm::events::{
    lemma_starts_first_add, no_empty_delta, no_stop, started, starts_first, stops_once, EventView,
    StopView,
};
use crate::chat_fsm::stepper::{
    args_event, content_event, reasoning_event, tail_event, CoreView, ScanView,
};
use crate::chat_fsm::stop_predicate::{
    law_stop_is_trimmed, lemma_first_stop, OutcomeView, StopModel,
};
use crate::text::{contains, occurs_at};
use crate::tools::OutputView;

verus! {

/// What one step of a completion is given: the decoded text, and what the
/// scanner and the detector make of it.
pub struct StepInput {
    pub chunk: Option<Seq<char>>,
    pub scan: ScanView,
    pub outs: Option<Seq<OutputView>>,
}

/// The state and all events after a sequence of steps.
pub open spec fn run(m: CoreView, ins: Seq<StepInput>) -> (CoreView, Seq<EventView>)
    decreases ins.len(),
{
    if ins.len() == 0 {
        (m, Seq::empty())
    } else {
        let (n, e) = run(m, ins.drop_last());
        let i = ins.last();
        let (k, f) = n.step(i.chunk, i.scan, i.outs);
        (k, e + f)
    }
}

/// A whole completion: the steps, then the end.
pub open spec fn complete(
    m: CoreView,
    ins: Seq<StepInput>,
    tail: Option<Seq<char>>,
    outs: Option<Seq<OutputView>>,
    reason: Seq<char>,
) -> (CoreView, Seq<EventView>) {
    let (n, e) = run(m, ins);
    let (k, f) = n.finish(tail, outs, reason);
    (k, e + f)
}

/// The shape of what one move from `m` to `n` emits: no empty delta;
/// `Stopped` last, exactly when the move stopped the completion; nothing at
/// all if it had been stopped before.
pub open spec fn well_shaped(m: CoreView, n: CoreView, e: Seq<EventView>) -> bool {
    &&& no_empty_delta(e)
    &&& m.stopped ==> n.stopped && e.len() == 0
    &&& !m.stopped && n.stopped ==> stops_once(e)
    &&& !n.stopped ==> no_stop(e)
}

proof fn lemma_shape_join(
    m: CoreView,
    n: CoreView,
    k: CoreView,
    e: Seq<EventView>,
    f: Seq<EventView>,
)
    requires
        well_shaped(m, n, e),
        well_shaped(n, k, f),
    ensures
        well_shaped(m, k, e + f),
{
    let s = e + f;
    if !m.stopped && k.stopped {
        if n.stopped {
            assert(s =~= e);
        } else {
            assert(s.drop_last() =~= e + f.drop_last());
        }
    }
    if m.stopped {
        assert(s =~= Seq::<EventView>::empty());
    }
}

proof fn lemma_emit_shape(m: CoreView, text: Seq<char>)
    requires
        !m.stopped,
    ensures
        well_shaped(m, m.emit(text).0, m.emit(text).1),
{
    let (n, e) = m.emit(text);
    if n.stopped {
        let p = m.stop->0;
        let safe = p.outcome(text)->safe_prefix;
        assert(e.drop_last() =~= content_event(safe));
    }
}

proof fn lemma_dispatch_shape(m: CoreView, outs: Seq<OutputView>)
    ensures
        well_shaped(m, m.dispatch(outs).0, m.dispatch(outs).1),
    decreases outs.len(),
{
    if outs.len() > 0 && !m.stopped {
        let (n, e) = m.dispatch_one(outs[0]);
        match outs[0] {
            OutputView::Content(text) => {
                lemma_emit_shape(m, text);
            },
            _ => {},
        }
        assert(well_shaped(m, n, e));
        lemma_dispatch_shape(n, outs.drop_first());
        lemma_shape_join(m, n, n.dispatch(outs.drop_first()).0, e, n.dispatch(outs.drop_first()).1);
    }
}

proof fn lemma_feed_content_shape(m: CoreView, chunk: Seq<char>, outs: Option<Seq<OutputView>>)
    requires
        !m.stopped,
    ensures
        well_shaped(m, m.feed_content(chunk, outs).0, m.feed_content(chunk, outs).1),
{
    match m.content_delta(chunk) {
        None => {},
        Some(delta) => match outs {
            Some(o) => {
                lemma_dispatch_shape(m.content_seen(), o);
            },
            None => {
                lemma_emit_shape(m.content_seen(), delta);
            },
        },
    }
}

/// Whatever the scanner and the detector return, one step emits no empty
/// delta, emits `Stopped` only as its last event and exactly when it stops
/// the completion, and emits nothing once the completion is stopped.
pub proof fn law_step_shape(
    m: CoreView,
    chunk: Option<Seq<char>>,
    scan: ScanView,
    outs: Option<Seq<OutputView>>,
)
    ensures
        well_shaped(m, m.step(chunk, scan, outs).0, m.step(chunk, scan, outs).1),
{
    if let Some(c) = chunk {
        if !m.stopped {
            if m.thinking {
                match scan {
                    ScanView::Continue { .. } => {},
                    ScanView::Transition { final_reasoning, content_start } => {
                        if content_start.len() > 0 {
                            let n = m.enter_content();
                            lemma_feed_content_shape(n, content_start, outs);
                            let (k, f) = n.feed_content(content_start, outs);
                            assert(well_shaped(m, n, reasoning_event(final_reasoning)));
                            lemma_shape_join(m, n, k, reasoning_event(final_reasoning), f);
                        }
                    },
                }
            } else {
                lemma_feed_content_shape(m, c, outs);
            }
        }
    }
}

proof fn lemma_finish_shape(
    m: CoreView,
    tail: Option<Seq<char>>,
    outs: Option<Seq<OutputView>>,
    reason: Seq<char>,
)
    ensures
        well_shaped(m, m.finish(tail, outs, reason).0, m.finish(tail, outs, reason).1),
        m.finish(tail, outs, reason).0.stopped,
{
    if !m.stopped {
        let r = tail_event(tail);
        assert(well_shaped(m, m, r));
        let (n, e) = match outs {
            Some(o) => m.dispatch(o),
            None => (m, Seq::empty()),
        };
        if let Some(o) = outs {
            lemma_dispatch_shape(m, o);
        }
        lemma_shape_join(m, m, n, r, e);
        if !n.stopped {
            let last = seq![EventView::Stopped { reason: StopView::Upstream(reason) }];
            let k = CoreView { stopped: true, ..n };
            assert(last.drop_last() =~= Seq::<EventView>::empty());
            assert(well_shaped(n, k, last));
            lemma_shape_join(m, n, k, r + e, last);
        }
    }
}

proof fn lemma_run_shape(m: CoreView, ins: Seq<StepInput>)
    ensures
        well_shaped(m, run(m, ins).0, run(m, ins).1),
    decreases ins.len(),
{
    if ins.len() > 0 {
        lemma_run_shape(m, ins.drop_last());
        let (n, e) = run(m, ins.drop_last());
        let i = ins.last();
        law_step_shape(n, i.chunk, i.scan, i.outs);
        let (k, f) = n.step(i.chunk, i.scan, i.outs);
        lemma_shape_join(m, n, k, e, f);
    }
}

/// A whole completion emits `Stopped` exactly once, as its last event, and no
/// empty delta.
pub proof fn law_stopped_exactly_once(
    m: CoreView,
    ins: Seq<StepInput>,
    tail: Option<Seq<char>>,
    outs: Option<Seq<OutputView>>,
    reason: Seq<char>,
)
    requires
        !m.stopped,
    ensures
        stops_once(complete(m, ins, tail, outs, reason).1),
        no_empty_delta(complete(m, ins, tail, outs, reason).1),
        complete(m, ins, tail, outs, reason).0.stopped,
{
    lemma_run_shape(m, ins);
    let (n, e) = run(m, ins);
    lemma_finish_shape(n, tail, outs, reason);
    let (k, f) = n.finish(tail, outs, reason);
    lemma_shape_join(m, n, k, e, f);
}

// ---------------------------------------------------------------------------
// The start of a call comes first
// ---------------------------------------------------------------------------
/// Whether the detector delivers the start of each call, or the whole call,
/// before the call's deltas and its end, the calls in `before` being started.
pub open spec fn outs_start_first(before: Set<usize>, outs: Seq<OutputView>) -> bool
    decreases outs.len(),
{
    if outs.len() == 0 {
        true
    } else {
        let rest = outs.drop_first();
        match outs[0] {
            OutputView::ToolCall(_, idx) => outs_start_first(before.insert(idx), rest),
            OutputView::ToolCallStart { idx, .. } => outs_start_first(before.insert(idx), rest),
            OutputView::ToolCallDelta { idx, .. } => before.contains(idx) && outs_start_first(
                before,
                rest,
            ),
            OutputView::ToolCallEnd { idx } => before.contains(idx) && outs_start_first(
                before,
                rest,
            ),
            OutputView::Content(_) => outs_start_first(before, rest),
        }
    }
}

proof fn lemma_one_event(before: Set<usize>, e: EventView)
    ensures
        started(before, seq![e]) == match e {
            EventView::ToolCallStart { idx, .. } => before.insert(idx),
            _ => before,
        },
        starts_first(before, seq![e]) == match e {
            EventView::ToolCallArgDelta { idx, .. } => before.contains(idx),
            EventView::ToolCallEnd { idx } => before.contains(idx),
            _ => true,
        },
{
    assert(seq![e].drop_last() =~= Seq::<EventView>::empty());
    reveal_with_fuel(started, 2);
    reveal_with_fuel(starts_first, 2);
}

proof fn lemma_no_events(before: Set<usize>)
    ensures
        started(before, Seq::empty()) == before,
        starts_first(before, Seq::empty()),
{
}

proof fn lemma_emit_starts(m: CoreView, text: Seq<char>)
    ensures
        starts_first(m.acc.dom(), m.emit(text).1),
        started(m.acc.dom(), m.emit(text).1) == m.acc.dom(),
        m.emit(text).0.acc == m.acc,
{
    let d = m.acc.dom();
    lemma_no_events(d);
    lemma_one_event(d, EventView::ContentDelta(text));
    if let Some(p) = m.stop {
        if let OutcomeView::Fire { safe_prefix, matched } = p.outcome(text) {
            lemma_one_event(d, EventView::ContentDelta(safe_prefix));
            let s = EventView::Stopped { reason: StopView::StopString(matched) };
            lemma_one_event(d, s);
            lemma_starts_first_add(d, content_event(safe_prefix), seq![s]);
        }
    }
}

proof fn lemma_dispatch_starts(m: CoreView, outs: Seq<OutputView>)
    requires
        outs_start_first(m.acc.dom(), outs),
    ensures
        starts_first(m.acc.dom(), m.dispatch(outs).1),
        started(m.acc.dom(), m.dispatch(outs).1) == m.dispatch(outs).0.acc.dom(),
    decreases outs.len(),
{
    let d = m.acc.dom();
    lemma_no_events(d);
    if outs.len() > 0 && !m.stopped {
        let (n, e) = m.dispatch_one(outs[0]);
        match outs[0] {
            OutputView::Content(text) => {
                lemma_emit_starts(m, text);
            },
            OutputView::ToolCall(c, idx) => {
                let a = EventView::ToolCallStart { id: c.id, name: c.name, idx };
                let b = EventView::ToolCallArgDelta { args: c.arguments, idx };
                let z = EventView::ToolCallEnd { idx };
                lemma_one_event(d, a);
                lemma_one_event(d.insert(idx), b);
                lemma_no_events(d.insert(idx));
                lemma_one_event(d.insert(idx), z);
                lemma_starts_first_add(d, seq![a], args_event(c.arguments, idx));
                lemma_starts_first_add(d, seq![a] + args_event(c.arguments, idx), seq![z]);
                assert(n.acc.dom() =~= d.insert(idx));
            },
            OutputView::ToolCallStart { id, name, idx } => {
                lemma_one_event(d, EventView::ToolCallStart { id, name, idx });
                assert(n.acc.dom() =~= d.insert(idx));
            },
            OutputView::ToolCallDelta { args, idx } => {
                lemma_one_event(d, EventView::ToolCallArgDelta { args, idx });
                assert(n.acc.dom() =~= d);
            },
            OutputView::ToolCallEnd { idx } => {
                lemma_one_event(d, EventView::ToolCallEnd { idx });
            },
        }
        lemma_dispatch_starts(n, outs.drop_first());
        lemma_starts_first_add(d, e, n.dispatch(outs.drop_first()).1);
    }
}

/// Where the detector delivers the start of each call first, so does every
/// step: each argument delta and each end that a step emits belongs to a call
/// that was started before it, and the calls started are those of the state.
pub proof fn law_step_starts_first(
    m: CoreView,
    chunk: Option<Seq<char>>,
    scan: ScanView,
    outs: Option<Seq<OutputView>>,
)
    requires
        outs matches Some(o) ==> outs_start_first(m.acc.dom(), o),
    ensures
        starts_first(m.acc.dom(), m.step(chunk, scan, outs).1),
        started(m.acc.dom(), m.step(chunk, scan, outs).1) == m.step(
            chunk,
            scan,
            outs,
        ).0.acc.dom(),
{
    let d = m.acc.dom();
    lemma_no_events(d);
    if let Some(c) = chunk {
        if !m.stopped {
            if m.thinking {
                match scan {
                    ScanView::Continue { emit } => {
                        lemma_one_event(d, EventView::ReasoningDelta(emit));
                    },
                    ScanView::Transition { final_reasoning, content_start } => {
                        lemma_one_event(d, EventView::ReasoningDelta(final_reasoning));
                        let n = m.enter_content();
                        lemma_feed_content_starts(n, content_start, outs);
                        lemma_starts_first_add(
                            d,
                            reasoning_event(final_reasoning),
                            n.feed_content(content_start, outs).1,
                        );
                    },
                }
            } else {
                lemma_feed_content_starts(m, c, outs);
            }
        }
    }
}

proof fn lemma_feed_content_starts(m: CoreView, chunk: Seq<char>, outs: Option<Seq<OutputView>>)
    requires
        outs matches Some(o) ==> outs_start_first(m.acc.dom(), o),
    ensures
        starts_first(m.acc.dom(), m.feed_content(chunk, outs).1),
        started(m.acc.dom(), m.feed_content(chunk, outs).1) == m.feed_content(
            chunk,
            outs,
        ).0.acc.dom(),
{
    lemma_no_events(m.acc.dom());
    if let Some(delta) = m.content_delta(chunk) {
        match outs {
            Some(o) => {
                lemma_dispatch_starts(m.content_seen(), o);
            },
            None => {
                lemma_emit_starts(m.content_seen(), delta);
            },
        }
    }
}

// ---------------------------------------------------------------------------
// Stop strings are trimmed
// ---------------------------------------------------------------------------
/// The text of the content deltas of a concatenation.
pub proof fn lemma_content_text_add(a: Seq<EventView>, b: Seq<EventView>)
    ensures
        content_text(a + b) == content_text(a) + content_text(b),
    decreases b.len(),
{
    if b.len() == 0 {
        assert(a + b =~= a);
        assert(content_text(a) + content_text(b) =~= content_text(a));
    } else {
        assert((a + b).drop_last() =~= a + b.drop_last());
        lemma_content_text_add(a, b.drop_last());
        if let EventView::ContentDelta(t) = b.last() {
            assert(content_text(a) + (content_text(b.drop_last()) + t) =~= content_text(a)
                + content_text(b.drop_last()) + t);
        }
    }
}

/// What the emitted content `c` and the state have to do with each other: the
/// content holds no stop string, and while the completion runs it is what stop
/// strings are looked for in.
pub open spec fn trimmed(m: CoreView, c: Seq<char>) -> bool {
    match m.stop {
        None => true,
        Some(p) => {
            &&& !m.stopped ==> p.accumulated == c
            &&& forall|j: int| 0 <= j < p.stops.len() ==> !contains(c, #[trigger] p.stops[j])
        },
    }
}

proof fn lemma_text_of_one(e: EventView)
    ensures
        content_text(seq![e]) == match e {
            EventView::ContentDelta(t) => t,
            _ => Seq::empty(),
        },
{
    assert(seq![e].drop_last() =~= Seq::<EventView>::empty());
    reveal_with_fuel(content_text, 2);
    if let EventView::ContentDelta(t) = e {
        assert(Seq::<char>::empty() + t =~= t);
    }
}

proof fn lemma_emit_trimmed(m: CoreView, c: Seq<char>, text: Seq<char>)
    requires
        !m.stopped,
        trimmed(m, c),
    ensures
        trimmed(m.emit(text).0, c + content_text(m.emit(text).1)),
{
    let (n, f) = m.emit(text);
    lemma_text_of_one(EventView::ContentDelta(text));
    if let Some(p) = m.stop {
        lemma_first_stop(p.stops, p.accumulated + text, p.stops.len());
        match p.outcome(text) {
            OutcomeView::Pass => {
                assert(content_text(f) =~= text);
                assert forall|j: int| 0 <= j < p.stops.len() implies !contains(
                    c + text,
                    #[trigger] p.stops[j],
                ) by {}
            },
            OutcomeView::Fire { safe_prefix, matched } => {
                assert forall|j: int| 0 <= j < p.stops.len() implies !contains(
                    c + safe_prefix,
                    #[trigger] p.stops[j],
                ) by {
                    law_stop_is_trimmed(p, text, j);
                }
                lemma_text_of_one(EventView::ContentDelta(safe_prefix));
                let s = EventView::Stopped { reason: StopView::StopString(matched) };
                lemma_text_of_one(s);
                lemma_content_text_add(content_event(safe_prefix), seq![s]);
                assert(content_text(f) =~= safe_prefix);
            },
        }
    }
}

proof fn lemma_dispatch_trimmed(m: CoreView, c: Seq<char>, outs: Seq<OutputView>)
    requires
        trimmed(m, c),
    ensures
        trimmed(m.dispatch(outs).0, c + content_text(m.dispatch(outs).1)),
    decreases outs.len(),
{
    if outs.len() == 0 || m.stopped {
        assert(c + content_text(Seq::empty()) =~= c);
    } else {
        let (n, f) = m.dispatch_one(outs[0]);
        let c1 = c + content_text(f);
        match outs[0] {
            OutputView::Content(text) => {
                if text.len() == 0 {
                    assert(c1 =~= c);
                } else {
                    lemma_emit_trimmed(m, c, text);
                }
            },
            OutputView::ToolCall(t, idx) => {
                let a = EventView::ToolCallStart { id: t.id, name: t.name, idx };
                let z = EventView::ToolCallEnd { idx };
                lemma_text_of_one(a);
                lemma_text_of_one(EventView::ToolCallArgDelta { args: t.arguments, idx });
                lemma_text_of_one(z);
                lemma_content_text_add(seq![a], args_event(t.arguments, idx));
                lemma_content_text_add(seq![a] + args_event(t.arguments, idx), seq![z]);
                assert(content_text(f) =~= Seq::<char>::empty());
                assert(c1 =~= c);
            },
            OutputView::ToolCallStart { id, name, idx } => {
                lemma_text_of_one(EventView::ToolCallStart { id, name, idx });
                assert(c1 =~= c);
            },
            OutputView::ToolCallDelta { args, idx } => {
                lemma_text_of_one(EventView::ToolCallArgDelta { args, idx });
                assert(c1 =~= c);
            },
            OutputView::ToolCallEnd { idx } => {
                lemma_text_of_one(EventView::ToolCallEnd { idx });
                assert(c1 =~= c);
            },
        }
        assert(trimmed(n, c1));
        lemma_dispatch_trimmed(n, c1, outs.drop_first());
        let g = n.dispatch(outs.drop_first()).1;
        lemma_content_text_add(f, g);
        assert(c1 + content_text(g) =~= c + content_text(f + g));
    }
}

proof fn lemma_feed_content_trimmed(
    m: CoreView,
    c: Seq<char>,
    chunk: Seq<char>,
    outs: Option<Seq<OutputView>>,
)
    requires
        !m.stopped,
        trimmed(m, c),
    ensures
        trimmed(
            m.feed_content(chunk, outs).0,
            c + content_text(m.feed_content(chunk, outs).1),
        ),
{
    assert(c + content_text(Seq::empty()) =~= c);
    if let Some(delta) = m.content_delta(chunk) {
        assert(trimmed(m.content_seen(), c));
        match outs {
            Some(o) => {
                lemma_dispatch_trimmed(m.content_seen(), c, o);
            },
            None => {
                lemma_emit_trimmed(m.content_seen(), c, delta);
            },
        }
    }
}

proof fn lemma_step_trimmed(m: CoreView, c: Seq<char>, i: StepInput)
    requires
        trimmed(m, c),
    ensures
        ({
            let (n, f) = m.step(i.chunk, i.scan, i.outs);
            trimmed(n, c + content_text(f))
        }),
{
    assert(c + content_text(Seq::empty()) =~= c);
    if let Some(chunk) = i.chunk {
        if !m.stopped {
            if m.thinking {
                match i.scan {
                    ScanView::Continue { emit } => {
                        lemma_text_of_one(EventView::ReasoningDelta(emit));
                        assert(c + content_text(reasoning_event(emit)) =~= c);
                    },
                    ScanView::Transition { final_reasoning, content_start } => {
                        let r = reasoning_event(final_reasoning);
                        lemma_text_of_one(EventView::ReasoningDelta(final_reasoning));
                        assert(c + content_text(r) =~= c);
                        let n = m.enter_content();
                        assert(trimmed(n, c));
                        if content_start.len() > 0 {
                            lemma_feed_content_trimmed(n, c, content_start, i.outs);
                            let f = n.feed_content(content_start, i.outs).1;
                            lemma_content_text_add(r, f);
                            assert(content_text(r + f) =~= content_text(f));
                        }
                    },
                }
            } else {
                lemma_feed_content_trimmed(m, c, chunk, i.outs);
            }
        }
    }
}

proof fn lemma_run_trimmed(m: CoreView, ins: Seq<StepInput>)
    requires
        trimmed(m, Seq::empty()),
    ensures
        trimmed(run(m, ins).0, content_text(run(m, ins).1)),
    decreases ins.len(),
{
    if ins.len() > 0 {
        lemma_run_trimmed(m, ins.drop_last());
        let (n, e) = run(m, ins.drop_last());
        let i = ins.last();
        lemma_step_trimmed(n, content_text(e), i);
        lemma_content_text_add(e, n.step(i.chunk, i.scan, i.outs).1);
    }
}

/// Stop strings are trimmed from the returned content: whatever ended a
/// completion, the content that was emitted holds no stop string. No stop
/// string may be empty, since an empty one stands in every text.
pub proof fn law_stop_strings_are_trimmed(
    m: CoreView,
    p: StopModel,
    ins: Seq<StepInput>,
    tail: Option<Seq<char>>,
    outs: Option<Seq<OutputView>>,
    reason: Seq<char>,
)
    requires
        !m.stopped,
        m.stop == Some(p),
        p.accumulated.len() == 0,
        forall|j: int| 0 <= j < p.stops.len() ==> (#[trigger] p.stops[j]).len() > 0,
    ensures
        forall|j: int|
            0 <= j < p.stops.len() ==> !contains(
                content_text(complete(m, ins, tail, outs, reason).1),
                #[trigger] p.stops[j],
            ),
{
    assert(p.accumulated =~= Seq::<char>::empty());
    assert forall|j: int| 0 <= j < p.stops.len() implies !contains(
        Seq::empty(),
        #[trigger] p.stops[j],
    ) by {
        assert forall|i: int| !occurs_at(Seq::empty(), p.stops[j], i) by {}
    }
    assert(trimmed(m, Seq::empty()));
    lemma_run_trimmed(m, ins);
    lemma_run_stops(m, ins);
    let (n, e) = run(m, ins);
    let c = content_text(e);
    let (k, f) = n.finish(tail, outs, reason);
    lemma_content_text_add(e, f);
    if n.stopped {
        assert(e + f =~= e);
    } else {
        let r = tail_event(tail);
        if let Some(t) = tail {
            lemma_text_of_one(EventView::ReasoningDelta(t));
        }
        assert(c + content_text(r) =~= c);
        assert(trimmed(n, c));
        let (q, g) = match outs {
            Some(o) => n.dispatch(o),
            None => (n, Seq::empty()),
        };
        assert(c + content_text(Seq::empty()) =~= c);
        if let Some(o) = outs {
            lemma_dispatch_trimmed(n, c, o);
            lemma_dispatch_stops(n, o);
        }
        lemma_content_text_add(r, g);
        assert(c + content_text(g) =~= c + content_text(r + g));
        if !q.stopped {
            let z = EventView::Stopped { reason: StopView::Upstream(reason) };
            lemma_text_of_one(z);
            lemma_content_text_add(r + g, seq![z]);
            assert(content_text(f) =~= content_text(r + g));
        }
    }
}

proof fn lemma_dispatch_stops(m: CoreView, outs: Seq<OutputView>)
    ensures
        (m.dispatch(outs).0.stop is Some) == (m.stop is Some),
        m.stop matches Some(p) ==> m.dispatch(outs).0.stop->0.stops == p.stops,
    decreases outs.len(),
{
    if outs.len() > 0 && !m.stopped {
        lemma_dispatch_stops(m.dispatch_one(outs[0]).0, outs.drop_first());
    }
}

/// The stop strings themselves never change.
proof fn lemma_run_stops(m: CoreView, ins: Seq<StepInput>)
    ensures
        (run(m, ins).0.stop is Some) == (m.stop is Some),
        m.stop matches Some(p) ==> run(m, ins).0.stop->0.stops == p.stops,
    decreases ins.len(),
{
    if ins.len() > 0 {
        lemma_run_stops(m, ins.drop_last());
        let n = run(m, ins.drop_last()).0;
        let i = ins.last();
        if let Some(o) = i.outs {
            lemma_dispatch_stops(n.content_seen(), o);
            lemma_dispatch_stops(n.enter_content().content_seen(), o);
        }
    }
}

} // verus!

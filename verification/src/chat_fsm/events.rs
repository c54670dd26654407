//! The events of a chat completion.
use vstd::prelude::*;

verus! {

/// Why a completion ended.
#[derive(Debug, Clone, PartialEq, Eq)]
pub enum StopReason {
    /// The scheduler's own word, such as `stop` or `length`.
    Upstream(String),
    /// This stop string was matched in the content.
    StopString { matched: String },
    /// The grammar of a required tool call was completed.
    GrammarTerminated,
}

/// What a [`StopReason`] says.
pub enum StopView {
    Upstream(Seq<char>),
    StopString(Seq<char>),
    GrammarTerminated,
}

impl View for StopReason {
    type V = StopView;

    open spec fn view(&self) -> StopView {
        match *self {
            StopReason::Upstream(s) => StopView::Upstream(s@),
            StopReason::StopString { matched } => StopView::StopString(matched@),
            StopReason::GrammarTerminated => StopView::GrammarTerminated,
        }
    }
}

/// One event of a completion. A delta is never empty, a call's start comes
/// before its deltas and its end, and nothing follows `Stopped`.
#[derive(Debug, Clone, PartialEq, Eq)]
pub enum FsmEvent {
    ReasoningDelta(String),
    ContentDelta(String),
    ToolCallStart { id: String, name: String, idx: usize },
    ToolCallArgDelta { args: String, idx: usize },
    ToolCallEnd { idx: usize },
    Stopped { reason: StopReason },
}

/// What an [`FsmEvent`] says.
pub enum EventView {
    ReasoningDelta(Seq<char>),
    ContentDelta(Seq<char>),
    ToolCallStart { id: Seq<char>, name: Seq<char>, idx: usize },
    ToolCallArgDelta { args: Seq<char>, idx: usize },
    ToolCallEnd { idx: usize },
    Stopped { reason: StopView },
}

impl View for FsmEvent {
    type V = EventView;

    open spec fn view(&self) -> EventView {
        match *self {
            FsmEvent::ReasoningDelta(t) => EventView::ReasoningDelta(t@),
            FsmEvent::ContentDelta(t) => EventView::ContentDelta(t@),
            FsmEvent::ToolCallStart { id, name, idx } => EventView::ToolCallStart {
                id: id@,
                name: name@,
                idx,
            },
            FsmEvent::ToolCallArgDelta { args, idx } => EventView::ToolCallArgDelta {
                args: args@,
                idx,
            },
            FsmEvent::ToolCallEnd { idx } => EventView::ToolCallEnd { idx },
            FsmEvent::Stopped { reason } => EventView::Stopped { reason: reason@ },
        }
    }
}

/// What a sequence of events says.
pub open spec fn event_views(s: Seq<FsmEvent>) -> Seq<EventView> {
    s.map_values(|e: FsmEvent| e@)
}

/// Pushing an event pushes its view.
pub broadcast proof fn lemma_event_views_push(s: Seq<FsmEvent>, e: FsmEvent)
    ensures
        #[trigger] event_views(s.push(e)) == event_views(s).push(e@),
{
    assert(event_views(s.push(e)) =~= event_views(s).push(e@));
}

/// Whether an event carries an empty delta.
pub open spec fn is_empty_delta(e: EventView) -> bool {
    match e {
        EventView::ReasoningDelta(t) => t.len() == 0,
        EventView::ContentDelta(t) => t.len() == 0,
        EventView::ToolCallArgDelta { args, .. } => args.len() == 0,
        _ => false,
    }
}

/// Whether no delta is empty.
pub open spec fn no_empty_delta(s: Seq<EventView>) -> bool {
    forall|i: int| 0 <= i < s.len() ==> !is_empty_delta(#[trigger] s[i])
}

/// Whether no event is `Stopped`.
pub open spec fn no_stop(s: Seq<EventView>) -> bool {
    forall|i: int| 0 <= i < s.len() ==> !(#[trigger] s[i] is Stopped)
}

/// Whether the last event, and no other, is `Stopped`.
pub open spec fn stops_once(s: Seq<EventView>) -> bool {
    s.len() > 0 && s.last() is Stopped && no_stop(s.drop_last())
}

/// The indices of the calls started in `s`, with those of `before`.
pub open spec fn started(before: Set<usize>, s: Seq<EventView>) -> Set<usize>
    decreases s.len(),
{
    if s.len() == 0 {
        before
    } else {
        match s.last() {
            EventView::ToolCallStart { idx, .. } => started(before, s.drop_last()).insert(idx),
            _ => started(before, s.drop_last()),
        }
    }
}

/// Whether each argument delta and each end belongs to a call that was
/// started earlier in `s` or is in `before`.
pub open spec fn starts_first(before: Set<usize>, s: Seq<EventView>) -> bool
    decreases s.len(),
{
    if s.len() == 0 {
        true
    } else {
        &&& starts_first(before, s.drop_last())
        &&& match s.last() {
            EventView::ToolCallArgDelta { idx, .. } => started(before, s.drop_last()).contains(idx),
            EventView::ToolCallEnd { idx } => started(before, s.drop_last()).contains(idx),
            _ => true,
        }
    }
}

/// [`started`] and [`starts_first`] of a concatenation.
pub proof fn lemma_starts_first_add(before: Set<usize>, a: Seq<EventView>, b: Seq<EventView>)
    ensures
        started(before, a + b) == started(started(before, a), b),
        starts_first(before, a + b) == (starts_first(before, a) && starts_first(
            started(before, a),
            b,
        )),
    decreases b.len(),
{
    if b.len() == 0 {
        assert(a + b =~= a);
    } else {
        assert((a + b).drop_last() =~= a + b.drop_last());
        lemma_starts_first_add(before, a, b.drop_last());
    }
}

} // verus!

//! Collecting the events of a completion into one choice.
use vstd::prelude::*;
use std::collections::HashMap;
use crate::chat_fsm::assemble::compute_finish_reason;
use crate::chat_fsm::assemble::finish_reason;
use crate::chat_fsm::events::{FsmEvent, StopReason};
use crate::chat_fsm::events::{EventView, StopView};
use crate::openai::types::{Annotation, ChatChoice, ChatMessage};
use crate::openai::types::{opt_annotations, ChatMessageView, CitationView};
use crate::tools::{FunctionCall, ToolCall};
use crate::tools::{call_views, ToolCallView};

verus! {

/// A call that was started and has not ended.
#[derive(Debug)]
struct PendingCall {
    id: String,
    name: String,
    args: String,
}

/// What a started call says so far.
pub struct PendingView {
    pub id: Seq<char>,
    pub name: Seq<char>,
    pub args: Seq<char>,
}

impl PendingCall {
    spec fn said(self) -> PendingView {
        PendingView { id: self.id@, name: self.name@, args: self.args@ }
    }
}

/// Collects events.
#[derive(Debug)]
pub struct ChoiceBuilder {
    choice_idx: usize,
    content_buf: String,
    reasoning_buf: String,
    tool_calls: Vec<ToolCall>,
    pending: HashMap<usize, PendingCall>,
    stop_reason: Option<StopReason>,
}

/// What a [`ChoiceBuilder`] has collected.
#[verifier::ext_equal]
pub struct BuilderView {
    pub choice_idx: usize,
    pub content: Seq<char>,
    pub reasoning: Seq<char>,
    pub tool_calls: Seq<ToolCallView>,
    pub pending: Map<usize, PendingView>,
    pub stop: Option<StopView>,
}

impl BuilderView {
    /// Nothing collected.
    pub open spec fn empty(choice_idx: usize) -> BuilderView {
        BuilderView {
            choice_idx,
            content: Seq::empty(),
            reasoning: Seq::empty(),
            tool_calls: Seq::empty(),
            pending: Map::empty(),
            stop: None,
        }
    }

    /// One event more. Text is appended; a call is finished when its end
    /// comes, in the order of the ends; a delta or an end of a call that is
    /// not pending changes nothing.
    pub open spec fn applied(self, e: EventView) -> BuilderView {
        match e {
            EventView::ReasoningDelta(t) => BuilderView { reasoning: self.reasoning + t, ..self },
            EventView::ContentDelta(t) => BuilderView { content: self.content + t, ..self },
            EventView::ToolCallStart { id, name, idx } => BuilderView {
                pending: self.pending.insert(idx, PendingView { id, name, args: Seq::empty() }),
                ..self
            },
            EventView::ToolCallArgDelta { args, idx } => if self.pending.contains_key(idx) {
                let p = self.pending[idx];
                BuilderView {
                    pending: self.pending.insert(idx, PendingView { args: p.args + args, ..p }),
                    ..self
                }
            } else {
                self
            },
            EventView::ToolCallEnd { idx } => if self.pending.contains_key(idx) {
                let p = self.pending[idx];
                BuilderView {
                    pending: self.pending.remove(idx),
                    tool_calls: self.tool_calls.push(
                        ToolCallView {
                            id: p.id,
                            call_type: "function"@,
                            name: p.name,
                            arguments: p.args,
                        },
                    ),
                    ..self
                }
            } else {
                self
            },
            EventView::Stopped { reason } => BuilderView { stop: Some(reason), ..self },
        }
    }

    /// A sequence of events more.
    pub open spec fn applied_all(self, s: Seq<EventView>) -> BuilderView
        decreases s.len(),
    {
        if s.len() == 0 {
            self
        } else {
            self.applied_all(s.drop_last()).applied(s.last())
        }
    }

    /// The message that the collected events amount to, with the annotations of
    /// its content.
    pub open spec fn message(self, annotations: Option<Seq<CitationView>>) -> ChatMessageView {
        let reasoning = if self.reasoning.len() == 0 {
            None
        } else {
            Some(self.reasoning)
        };
        ChatMessageView {
            role: "assistant"@,
            reasoning_content: reasoning,
            reasoning,
            content: if self.tool_calls.len() > 0 && self.content.len() == 0 {
                None
            } else {
                Some(self.content)
            },
            tool_calls: if self.tool_calls.len() == 0 {
                None
            } else {
                Some(self.tool_calls)
            },
            annotations,
            refusal: None,
        }
    }
}

impl View for ChoiceBuilder {
    type V = BuilderView;

    closed spec fn view(&self) -> BuilderView {
        BuilderView {
            choice_idx: self.choice_idx,
            content: self.content_buf@,
            reasoning: self.reasoning_buf@,
            tool_calls: call_views(self.tool_calls@),
            pending: self.pending@.map_values(|p: PendingCall| p.said()),
            stop: match self.stop_reason {
                Some(r) => Some(r@),
                None => None,
            },
        }
    }
}

impl ChoiceBuilder {
    /// A builder that has collected nothing.
    pub fn new(choice_idx: usize) -> (r: ChoiceBuilder)
        ensures
            r@ == BuilderView::empty(choice_idx),
    {
        let r = ChoiceBuilder {
            choice_idx,
            content_buf: String::new(),
            reasoning_buf: String::new(),
            tool_calls: Vec::new(),
            pending: HashMap::new(),
            stop_reason: None,
        };
        assert(r@ =~= BuilderView::empty(choice_idx));
        r
    }

    /// Collects one event.
    pub fn apply(&mut self, ev: FsmEvent)
        ensures
            final(self)@ == old(self)@.applied(ev@),
    {
        match ev {
            FsmEvent::ReasoningDelta(text) => {
                self.reasoning_buf.append(text.as_str());
            },
            FsmEvent::ContentDelta(text) => {
                self.content_buf.append(text.as_str());
            },
            FsmEvent::ToolCallStart { id, name, idx } => {
                let call = PendingCall { id, name, args: String::new() };
                self.pending.insert(idx, call);
            },
            FsmEvent::ToolCallArgDelta { args, idx } => {
                if let Some(mut call) = self.pending.remove(&idx) {
                    call.args.append(args.as_str());
                    self.pending.insert(idx, call);
                }
            },
            FsmEvent::ToolCallEnd { idx } => {
                if let Some(call) = self.pending.remove(&idx) {
                    self.tool_calls.push(
                        ToolCall {
                            id: call.id,
                            call_type: "function".to_owned(),
                            function: FunctionCall { name: call.name, arguments: call.args },
                        },
                    );
                }
            },
            FsmEvent::Stopped { reason } => {
                self.stop_reason = Some(reason);
            },
        }
        assert(self@ =~= old(self)@.applied(ev@));
    }

    /// The content so far.
    pub fn content_str(&self) -> (r: &str)
        ensures
            r@ == self@.content,
    {
        self.content_buf.as_str()
    }

    /// The reasoning so far.
    pub fn reasoning_str(&self) -> (r: &str)
        ensures
            r@ == self@.reasoning,
    {
        self.reasoning_buf.as_str()
    }

    /// The finished calls so far.
    pub fn tool_calls(&self) -> (r: &[ToolCall])
        ensures
            call_views(r@) == self@.tool_calls,
    {
        self.tool_calls.as_slice()
    }

    /// Why the completion ended, if it has.
    pub fn stop_reason(&self) -> (r: Option<&StopReason>)
        ensures
            match r {
                Some(s) => self@.stop == Some(s@),
                None => self@.stop is None,
            },
    {
        self.stop_reason.as_ref()
    }

    /// The choice. The annotations of the content and the log-probabilities
    /// are the caller's.
    pub fn into_chat_choice<L>(
        self,
        annotations: Option<Vec<Annotation>>,
        logprobs: Option<L>,
    ) -> (r: ChatChoice<L>)
        ensures
            r.index == self@.choice_idx,
            r.message@ == self@.message(opt_annotations(annotations)),
            r.finish_reason@ == finish_reason(self@.stop, self@.tool_calls.len() > 0),
            r.logprobs == logprobs,
    {
        let has_calls = self.tool_calls.len() > 0;
        let empty_reasoning = self.reasoning_buf.as_str().is_empty();
        let reasoning_content = if empty_reasoning {
            None
        } else {
            Some(self.reasoning_buf.clone())
        };
        let reasoning = if empty_reasoning {
            None
        } else {
            Some(self.reasoning_buf)
        };
        let finish = compute_finish_reason(self.stop_reason.as_ref(), has_calls);
        let content = if has_calls && self.content_buf.as_str().is_empty() {
            None
        } else {
            Some(self.content_buf)
        };
        let tool_calls = if has_calls {
            Some(self.tool_calls)
        } else {
            None
        };
        ChatChoice {
            index: self.choice_idx,
            message: ChatMessage {
                role: "assistant".to_owned(),
                reasoning_content,
                reasoning,
                content,
                tool_calls,
                annotations,
                refusal: None,
            },
            finish_reason: finish,
            logprobs,
        }
    }
}

/// The texts of the content deltas, one after the other.
pub open spec fn content_text(s: Seq<EventView>) -> Seq<char>
    decreases s.len(),
{
    if s.len() == 0 {
        Seq::empty()
    } else {
        match s.last() {
            EventView::ContentDelta(t) => content_text(s.drop_last()) + t,
            _ => content_text(s.drop_last()),
        }
    }
}

/// The texts of the reasoning deltas, one after the other.
pub open spec fn reasoning_text(s: Seq<EventView>) -> Seq<char>
    decreases s.len(),
{
    if s.len() == 0 {
        Seq::empty()
    } else {
        match s.last() {
            EventView::ReasoningDelta(t) => reasoning_text(s.drop_last()) + t,
            _ => reasoning_text(s.drop_last()),
        }
    }
}

/// The text that a builder rolls up is the text that the deltas stream: a
/// client that concatenates the deltas holds the body of the blocking answer.
pub proof fn law_roll_up_is_stream(idx: usize, s: Seq<EventView>)
    ensures
        BuilderView::empty(idx).applied_all(s).content == content_text(s),
        BuilderView::empty(idx).applied_all(s).reasoning == reasoning_text(s),
        BuilderView::empty(idx).applied_all(s).choice_idx == idx,
    decreases s.len(),
{
    if s.len() > 0 {
        law_roll_up_is_stream(idx, s.drop_last());
    }
}

/// Applying events in two batches is applying them in one.
pub proof fn lemma_applied_all_add(b: BuilderView, s: Seq<EventView>, t: Seq<EventView>)
    ensures
        b.applied_all(s + t) == b.applied_all(s).applied_all(t),
    decreases t.len(),
{
    if t.len() == 0 {
        assert(s + t =~= s);
    } else {
        assert((s + t).drop_last() =~= s + t.drop_last());
        lemma_applied_all_add(b, s, t.drop_last());
    }
}

/// A call whose start, deltas and end arrive one after the other is finished
/// with exactly the arguments that the deltas spell, and its id and name
/// unchanged, after the calls finished before it.
pub proof fn law_call_is_assembled(
    b: BuilderView,
    id: Seq<char>,
    name: Seq<char>,
    idx: usize,
    args: Seq<Seq<char>>,
)
    ensures
        b.applied_all(call_events(id, name, idx, args)).tool_calls == b.tool_calls.push(
            ToolCallView {
                id,
                call_type: "function"@,
                name,
                arguments: crate::text::concat_all(args),
            },
        ),
{
    let start = seq![EventView::ToolCallStart { id, name, idx }];
    let deltas = arg_events(idx, args);
    let end = seq![EventView::ToolCallEnd { idx }];
    lemma_args_collected(b, id, name, idx, args);
    assert(call_events(id, name, idx, args) =~= (start + deltas) + end);
    lemma_applied_all_add(b, start + deltas, end);
    let mid = b.applied_all(start + deltas);
    assert(end.drop_last() =~= Seq::<EventView>::empty());
    reveal_with_fuel(BuilderView::applied_all, 2);
    assert(mid.applied_all(end) == mid.applied(end.last()));
}

/// The events of one call.
pub open spec fn call_events(
    id: Seq<char>,
    name: Seq<char>,
    idx: usize,
    args: Seq<Seq<char>>,
) -> Seq<EventView> {
    seq![EventView::ToolCallStart { id, name, idx }] + arg_events(idx, args) + seq![
        EventView::ToolCallEnd { idx },
    ]
}

/// The argument deltas of one call.
pub open spec fn arg_events(idx: usize, args: Seq<Seq<char>>) -> Seq<EventView> {
    args.map_values(|a: Seq<char>| EventView::ToolCallArgDelta { args: a, idx })
}

proof fn lemma_args_collected(
    b: BuilderView,
    id: Seq<char>,
    name: Seq<char>,
    idx: usize,
    args: Seq<Seq<char>>,
)
    ensures
        ({
            let m = b.applied_all(
                seq![EventView::ToolCallStart { id, name, idx }] + arg_events(idx, args),
            );
            m.pending.contains_key(idx) && m.pending[idx] == (PendingView {
                id,
                name,
                args: crate::text::concat_all(args),
            }) && m.tool_calls == b.tool_calls
        }),
    decreases args.len(),
{
    let start = seq![EventView::ToolCallStart { id, name, idx }];
    reveal_with_fuel(BuilderView::applied_all, 2);
    if args.len() == 0 {
        assert(start + arg_events(idx, args) =~= start);
        assert(start.drop_last() =~= Seq::<EventView>::empty());
        assert(b.applied_all(start) == b.applied(start.last()));
    } else {
        let less = args.drop_last();
        lemma_args_collected(b, id, name, idx, less);
        let s = start + arg_events(idx, args);
        assert(s.drop_last() =~= start + arg_events(idx, less));
        assert(s.last() == EventView::ToolCallArgDelta { args: args.last(), idx });
    }
}

/// The message of a choice holds what was collected: all the content, all the
/// reasoning, under both names that clients read, and all the calls; it is the
/// assistant's.
pub proof fn law_choice_holds_the_record(b: BuilderView, annotations: Option<Seq<CitationView>>)
    ensures
        ({
            let m = b.message(annotations);
            &&& m.role == "assistant"@
            &&& m.content matches Some(t) ==> t == b.content
            &&& m.content is None ==> b.content.len() == 0 && b.tool_calls.len() > 0
            &&& m.reasoning_content matches Some(t) ==> t == b.reasoning
            &&& m.reasoning_content is None ==> b.reasoning.len() == 0
            &&& m.reasoning == m.reasoning_content
            &&& m.tool_calls matches Some(c) ==> c == b.tool_calls
            &&& m.tool_calls is None ==> b.tool_calls.len() == 0
            &&& m.annotations == annotations
            &&& m.refusal is None
        }),
{
}

/// A choice with a finished call ends for its calls; one without ends as the
/// scheduler or the stop string says.
pub proof fn law_finish_reason(stop: Option<StopView>, word: Seq<char>)
    ensures
        finish_reason(stop, true) == "tool_calls"@,
        finish_reason(Some(StopView::Upstream(word)), false) == word,
        finish_reason(Some(StopView::StopString(word)), false) == "stop"@,
        finish_reason(None, false) == "stop"@,
{
}

} // verus!

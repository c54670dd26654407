//! Events into stream items.
use vstd::prelude::*;
use crate::chat_fsm::assemble::compute_finish_reason;
use crate::chat_fsm::assemble::finish_reason;
use crate::chat_fsm::choice_builder::ChoiceBuilder;
use crate::chat_fsm::choice_builder::BuilderView;
use crate::chat_fsm::events::FsmEvent;
use crate::chat_fsm::events::EventView;
use crate::chat_stream::wire::{log_tool_call, push_end, refund, Wire};
use crate::chat_stream::wire::{
    call_log, end_items, lemma_wire_views_push, refund_due, wire_views, UsageView, WireView,
};
use crate::openai::chat_response::{build_usage, Usage};
use crate::openai::chat_response::{CompletionTokensDetails, PromptTokensDetails};
use crate::tools::opt_view;

verus! {

/// What the scheduler reports at the end of a completion. `F` is the type of
/// the timings.
#[derive(Debug, Clone, Copy)]
pub struct UsageInputs<F> {
    pub completion_tokens: usize,
    pub time_to_first_token_ms: F,
    pub response_tokens_per_second: F,
    pub reasoning_tokens: u32,
    pub cached_prompt_tokens: u32,
    pub accepted_prediction_tokens: u32,
    pub rejected_prediction_tokens: u32,
}

/// The usage that a report amounts to.
pub open spec fn usage_of<F>(prompt_len: usize, u: UsageInputs<F>, request_id: Seq<char>) -> UsageView<
    F,
> {
    UsageView {
        prompt_tokens: prompt_len,
        completion_tokens: u.completion_tokens,
        total_tokens: (prompt_len + u.completion_tokens) as usize,
        prompt_tokens_details: Some(
            PromptTokensDetails {
                cached_tokens: u.cached_prompt_tokens as usize,
                audio_tokens: 0,
            },
        ),
        completion_tokens_details: Some(
            CompletionTokensDetails {
                reasoning_tokens: u.reasoning_tokens as usize,
                audio_tokens: 0,
                accepted_prediction_tokens: u.accepted_prediction_tokens as usize,
                rejected_prediction_tokens: u.rejected_prediction_tokens as usize,
            },
        ),
        time_to_first_token_ms: u.time_to_first_token_ms,
        response_tokens_per_second: u.response_tokens_per_second,
        request_id,
    }
}

/// Computes [`usage_of`].
pub fn usage_from<F: Copy>(prompt_len: usize, u: &UsageInputs<F>, request_id: &str) -> (r: Usage<F>)
    requires
        prompt_len + u.completion_tokens <= usize::MAX,
    ensures
        r@ == usage_of(prompt_len, *u, request_id@),
{
    build_usage(
        prompt_len,
        u.completion_tokens,
        u.time_to_first_token_ms,
        u.response_tokens_per_second,
        u.reasoning_tokens,
        u.cached_prompt_tokens,
        u.accepted_prediction_tokens,
        u.rejected_prediction_tokens,
        crate::text::own(request_id),
    )
}

/// Turns the events of one completion into stream items, and collects them.
#[derive(Debug)]
pub struct StreamingAdapter<F> {
    request_id: String,
    include_usage: bool,
    reserved_tokens: Option<u64>,
    prompt_len: usize,
    choice: ChoiceBuilder,
    usage_inputs: UsageInputs<F>,
}

/// What a [`StreamingAdapter`] holds.
pub struct AdapterView<F> {
    pub request_id: Seq<char>,
    pub include_usage: bool,
    pub reserved_tokens: Option<u64>,
    pub prompt_len: usize,
    pub choice: BuilderView,
    pub inputs: UsageInputs<F>,
}

impl<F> View for StreamingAdapter<F> {
    type V = AdapterView<F>;

    closed spec fn view(&self) -> AdapterView<F> {
        AdapterView {
            request_id: self.request_id@,
            include_usage: self.include_usage,
            reserved_tokens: self.reserved_tokens,
            prompt_len: self.prompt_len,
            choice: self.choice@,
            inputs: self.usage_inputs,
        }
    }
}

/// What is to be done once a completion has ended.
#[derive(Debug, Clone, Copy, PartialEq, Eq, Structural)]
pub struct Ended {
    /// The tokens of the completion.
    pub completion_tokens: usize,
    /// The tokens to give back of those reserved.
    pub refund: u64,
}

/// What an event leads to beside stream items.
#[derive(Debug)]
pub struct Translated {
    /// A line to log.
    pub log: Option<String>,
    /// Set by the last event.
    pub ended: Option<Ended>,
}

/// The items of an event that is not the last.
pub open spec fn event_items<F>(e: EventView) -> Seq<WireView<F>> {
    match e {
        EventView::ReasoningDelta(t) => seq![WireView::Reasoning(t)],
        EventView::ContentDelta(t) => seq![WireView::Content(t)],
        EventView::ToolCallStart { id, name, idx } => seq![WireView::CallStart { id, name, idx }],
        EventView::ToolCallArgDelta { args, idx } => seq![WireView::CallArgs { args, idx }],
        EventView::ToolCallEnd { .. } => Seq::empty(),
        EventView::Stopped { .. } => Seq::empty(),
    }
}

impl<F> AdapterView<F> {
    /// With one event more collected.
    pub open spec fn applied(self, e: EventView) -> AdapterView<F> {
        AdapterView { choice: self.choice.applied(e), ..self }
    }

    /// The items of an event. The last event ends the stream with the finish
    /// reason of all that was collected.
    pub open spec fn items(self, e: EventView) -> Seq<WireView<F>> {
        if e is Stopped {
            let c = self.choice.applied(e);
            end_items(
                self.include_usage,
                finish_reason(c.stop, c.tool_calls.len() > 0),
                usage_of(self.prompt_len, self.inputs, self.request_id),
            )
        } else {
            event_items(e)
        }
    }

    /// What is to be done once the completion has ended.
    pub open spec fn ended(self) -> Ended {
        Ended {
            completion_tokens: self.inputs.completion_tokens,
            refund: match self.reserved_tokens {
                Some(r) => refund_due(r, self.prompt_len + self.inputs.completion_tokens),
                None => 0,
            },
        }
    }

    /// The line that is logged at the end of a call: the call that was
    /// finished last.
    pub open spec fn log(self, e: EventView) -> Option<Seq<char>> {
        let calls = self.choice.applied(e).tool_calls;
        if e is ToolCallEnd && calls.len() > 0 {
            Some(call_log(calls.last().name, calls.last().arguments))
        } else {
            None
        }
    }
}

impl<F: Copy> StreamingAdapter<F> {
    /// An adapter that has seen nothing. `zero` is the timing that is reported
    /// where the scheduler reports none.
    pub fn new(
        request_id: String,
        include_usage: bool,
        reserved_tokens: Option<u64>,
        prompt_len: usize,
        zero: F,
    ) -> (r: StreamingAdapter<F>)
        ensures
            r@.request_id == request_id@,
            r@.include_usage == include_usage,
            r@.reserved_tokens == reserved_tokens,
            r@.prompt_len == prompt_len,
            r@.choice == BuilderView::empty(0),
            r@.inputs == (UsageInputs {
                completion_tokens: 0,
                time_to_first_token_ms: zero,
                response_tokens_per_second: zero,
                reasoning_tokens: 0,
                cached_prompt_tokens: 0,
                accepted_prediction_tokens: 0,
                rejected_prediction_tokens: 0,
            }),
    {
        StreamingAdapter {
            request_id,
            include_usage,
            reserved_tokens,
            prompt_len,
            choice: ChoiceBuilder::new(0),
            usage_inputs: UsageInputs {
                completion_tokens: 0,
                time_to_first_token_ms: zero,
                response_tokens_per_second: zero,
                reasoning_tokens: 0,
                cached_prompt_tokens: 0,
                accepted_prediction_tokens: 0,
                rejected_prediction_tokens: 0,
            },
        }
    }

    /// Keeps the scheduler's report for the end of the stream.
    pub fn set_usage_inputs(&mut self, u: UsageInputs<F>)
        ensures
            final(self)@ == (AdapterView { inputs: u, ..old(self)@ }),
    {
        self.usage_inputs = u;
    }

    /// Takes one event: pushes its items, collects it, and says what else is
    /// to be done.
    pub fn translate(&mut self, ev: FsmEvent, out: &mut Vec<Wire<F>>) -> (r: Translated)
        requires
            old(self)@.prompt_len + old(self)@.inputs.completion_tokens <= usize::MAX,
        ensures
            final(self)@ == old(self)@.applied(ev@),
            wire_views(final(out)@) == wire_views(old(out)@) + old(self)@.items(ev@),
            opt_view(r.log) == old(self)@.log(ev@),
            r.ended == if ev@ is Stopped {
                Some(old(self)@.ended())
            } else {
                None
            },
    {
        broadcast use lemma_wire_views_push;

        let mut is_stopped = false;
        let mut is_call_end = false;
        match &ev {
            FsmEvent::ReasoningDelta(text) => {
                out.push(Wire::Reasoning(text.clone()));
            },
            FsmEvent::ContentDelta(text) => {
                out.push(Wire::Content(text.clone()));
            },
            FsmEvent::ToolCallStart { id, name, idx } => {
                out.push(Wire::CallStart { id: id.clone(), name: name.clone(), idx: *idx });
            },
            FsmEvent::ToolCallArgDelta { args, idx } => {
                out.push(Wire::CallArgs { args: args.clone(), idx: *idx });
            },
            FsmEvent::ToolCallEnd { .. } => {
                is_call_end = true;
            },
            FsmEvent::Stopped { .. } => {
                is_stopped = true;
            },
        }
        assert(wire_views(out@) =~= wire_views(old(out)@) + event_items(ev@));
        self.choice.apply(ev);
        let mut log: Option<String> = None;
        if is_call_end {
            let calls = self.choice.tool_calls();
            if calls.len() > 0 {
                let last = &calls[calls.len() - 1];
                assert(last@ == crate::tools::call_views(calls@).last());
                log = Some(
                    log_tool_call(last.function.name.as_str(), last.function.arguments.as_str()),
                );
            }
        }
        if is_stopped {
            let ended = self.end_stream(out);
            return Translated { log, ended: Some(ended) };
        }
        Translated { log, ended: None }
    }

    /// Pushes the items that end the stream, and says what is to be done.
    fn end_stream(&self, out: &mut Vec<Wire<F>>) -> (r: Ended)
        requires
            self@.prompt_len + self@.inputs.completion_tokens <= usize::MAX,
        ensures
            wire_views(final(out)@) == wire_views(old(out)@) + end_items(
                self@.include_usage,
                finish_reason(self@.choice.stop, self@.choice.tool_calls.len() > 0),
                usage_of(self@.prompt_len, self@.inputs, self@.request_id),
            ),
            r == self@.ended(),
    {
        let usage = usage_from(self.prompt_len, &self.usage_inputs, self.request_id.as_str());
        let calls = self.choice.tool_calls();
        let has_calls = calls.len() > 0;
        assert(has_calls == (self@.choice.tool_calls.len() > 0));
        let fr = compute_finish_reason(self.choice.stop_reason(), has_calls);
        push_end(out, self.include_usage, fr, usage);
        let refunded: u64 = match self.reserved_tokens {
            Some(reserved) => refund(
                reserved,
                self.prompt_len,
                self.usage_inputs.completion_tokens,
            ),
            None => 0,
        };
        Ended { completion_tokens: self.usage_inputs.completion_tokens, refund: refunded }
    }

    /// Hands out what was collected and starts afresh.
    pub fn take_choice(&mut self) -> (r: ChoiceBuilder)
        ensures
            r@ == old(self)@.choice,
            final(self)@ == (AdapterView { choice: BuilderView::empty(0), ..old(self)@ }),
    {
        let mut fresh = ChoiceBuilder::new(0);
        std::mem::swap(&mut fresh, &mut self.choice);
        fresh
    }
}

/// The items of a sequence of events.
pub open spec fn all_items<F>(a: AdapterView<F>, s: Seq<EventView>) -> Seq<WireView<F>>
    decreases s.len(),
{
    if s.len() == 0 {
        Seq::empty()
    } else {
        let b = a.collected(s.drop_last());
        all_items(a, s.drop_last()) + b.items(s.last())
    }
}

impl<F> AdapterView<F> {
    /// With a sequence of events collected.
    pub open spec fn collected(self, s: Seq<EventView>) -> AdapterView<F> {
        AdapterView { choice: self.choice.applied_all(s), ..self }
    }
}

/// The content that the items carry, one after the other.
pub open spec fn wire_content<F>(s: Seq<WireView<F>>) -> Seq<char>
    decreases s.len(),
{
    if s.len() == 0 {
        Seq::empty()
    } else {
        match s.last() {
            WireView::Content(t) => wire_content(s.drop_last()) + t,
            _ => wire_content(s.drop_last()),
        }
    }
}

proof fn lemma_wire_content_add<F>(a: Seq<WireView<F>>, b: Seq<WireView<F>>)
    ensures
        wire_content(a + b) == wire_content(a) + wire_content(b),
    decreases b.len(),
{
    if b.len() == 0 {
        assert(a + b =~= a);
        assert(wire_content(a) + wire_content(b) =~= wire_content(a));
    } else {
        lemma_wire_content_add(a, b.drop_last());
        assert((a + b).drop_last() =~= a + b.drop_last());
        match b.last() {
            WireView::Content(t) => {
                assert(wire_content(a) + (wire_content(b.drop_last()) + t) =~= (wire_content(a)
                    + wire_content(b.drop_last())) + t);
            },
            _ => {},
        }
    }
}

/// What the client reads off the stream is what the record of the completion
/// holds: the content of the items is the content that was collected.
pub proof fn law_record_is_stream<F>(a: AdapterView<F>, s: Seq<EventView>)
    requires
        a.choice == BuilderView::empty(0),
    ensures
        wire_content(all_items(a, s)) == a.collected(s).choice.content,
    decreases s.len(),
{
    if s.len() > 0 {
        law_record_is_stream(a, s.drop_last());
        let b = a.collected(s.drop_last());
        let more = b.items(s.last());
        lemma_wire_content_add(all_items(a, s.drop_last()), more);
        reveal_with_fuel(wire_content, 3);
        match s.last() {
            EventView::ContentDelta(t) => {
                assert(more.drop_last() =~= Seq::<WireView<F>>::empty());
                assert(wire_content(more) =~= t);
            },
            EventView::ToolCallEnd { .. } => {
                assert(wire_content(more) =~= Seq::<char>::empty());
            },
            EventView::Stopped { .. } => {
                if b.include_usage {
                    assert(more.drop_last().drop_last() =~= Seq::<WireView<F>>::empty());
                } else {
                    assert(more.drop_last() =~= Seq::<WireView<F>>::empty());
                }
                assert(wire_content(more) =~= Seq::<char>::empty());
            },
            _ => {
                assert(more.drop_last() =~= Seq::<WireView<F>>::empty());
                assert(wire_content(more) =~= Seq::<char>::empty());
            },
        }
        let before = wire_content(all_items(a, s.drop_last()));
        assert(before + Seq::<char>::empty() =~= before);
    }
}

} // verus!

//! Nothing is lost between the events of a completion and what its client reads.
use vstd::prelude::*;
use crate::chat_fsm::assemble::finish_reason;
use crate::chat_fsm::choice_builder::{law_roll_up_is_stream, BuilderView};
use crate::chat_fsm::events::{EventView, StopView};
use crate::chat_fsm::flow::{
    event_says, events_say, law_completion_says_all, lemma_and, lemma_events_say_add,
    lemma_says_texts, output_says, outputs_say, steps_say, Said,
};
use crate::chat_fsm::laws::{run, StepInput};
use crate::chat_fsm::stepper::{CoreView, ScanView};
use crate::chat_stream::adapter::{all_items, usage_of, AdapterView};
use crate::chat_stream::handlers::{
    args_item, before_stop, content_item, end_reason, reasoning_item, stop_position, RulesView,
};
use crate::chat_stream::run::{
    all_logs, has_stop, items_after, lemma_items_after, lemma_record_after, record_after, streams,
    Streamed,
};
use crate::chat_stream::state::{trimmed_delta, StateView, StreamPhase};
use crate::chat_stream::wire::{
    carries, end_items, refund_due, wire_views, UsageView, WireView,
};
use crate::openai::chat_response::{ChatCompletionChunk, ChunkCallView};
use crate::text::{contains, find, lemma_find_from, occurs_at, CharSet};
use crate::tools::{opt_view, OutputView};
use crate::trim::trim_start;

verus! {

// ---------------------------------------------------------------------------
// What a client reads
// ---------------------------------------------------------------------------
/// What one stream item says, of the arguments those of the call `call`.
pub open spec fn wire_says<F>(w: WireView<F>, call: usize) -> Said {
    match w {
        WireView::Reasoning(t) => Said::thought(t),
        WireView::Content(t) => Said::text(t),
        WireView::CallStart { id, name, idx } => Said {
            starts: seq![(id, name, idx)],
            ..Said::nothing()
        },
        WireView::CallArgs { args, idx } => if idx == call {
            Said { args, ..Said::nothing() }
        } else {
            Said::nothing()
        },
        _ => Said::nothing(),
    }
}

/// What some stream items say.
pub open spec fn wires_say<F>(s: Seq<WireView<F>>, call: usize) -> Said
    decreases s.len(),
{
    if s.len() == 0 {
        Said::nothing()
    } else {
        wires_say(s.drop_last(), call).and(wire_says(s.last(), call))
    }
}

/// The item ends the stream with this finish reason.
pub open spec fn ends_with<F>(w: WireView<F>, finish: Seq<char>) -> bool {
    match w {
        WireView::FinalNoUsage(f) => f == finish,
        WireView::Done(f, _) => f == finish,
        _ => false,
    }
}

/// The item reports this usage.
pub open spec fn reports<F>(w: WireView<F>, usage: UsageView<F>) -> bool {
    match w {
        WireView::UsageOnly(u) => u == usage,
        WireView::Done(_, u) => u == usage,
        _ => false,
    }
}

pub proof fn lemma_wires_say_add<F>(a: Seq<WireView<F>>, b: Seq<WireView<F>>, call: usize)
    ensures
        wires_say(a + b, call) == wires_say(a, call).and(wires_say(b, call)),
    decreases b.len(),
{
    if b.len() == 0 {
        assert(a + b =~= a);
        lemma_and(wires_say(a, call), Said::nothing(), Said::nothing());
    } else {
        lemma_wires_say_add(a, b.drop_last(), call);
        assert((a + b).drop_last() =~= a + b.drop_last());
        lemma_and(wires_say(a, call), wires_say(b.drop_last(), call), wire_says(b.last(), call));
    }
}

proof fn lemma_wire_says_one<F>(w: WireView<F>, call: usize)
    ensures
        wires_say(seq![w], call) == wire_says(w, call),
{
    reveal_with_fuel(wires_say, 2);
    assert(seq![w].drop_last() =~= Seq::<WireView<F>>::empty());
    lemma_and(wire_says(w, call), Said::nothing(), Said::nothing());
}

proof fn lemma_end_says<F>(include_usage: bool, f: Seq<char>, u: UsageView<F>, call: usize)
    ensures
        wires_say(end_items(include_usage, f, u), call) == Said::nothing(),
{
    reveal_with_fuel(wires_say, 3);
    lemma_and(Said::nothing(), Said::nothing(), Said::nothing());
}

proof fn lemma_heard_and(a: Said, b: Said)
    ensures
        a.and(b).heard() == a.heard().and(b.heard()),
{
    assert(a.and(b).heard() =~= a.heard().and(b.heard()));
}

// ---------------------------------------------------------------------------
// Events on the wire
// ---------------------------------------------------------------------------
/// A client reads off the stream what the events say: the reasoning, the
/// content, every call that begins, and the arguments of every call.
pub proof fn law_stream_says_the_events<F>(a: AdapterView<F>, s: Seq<EventView>, call: usize)
    ensures
        wires_say(all_items(a, s), call) == events_say(s, call).heard(),
    decreases s.len(),
{
    if s.len() == 0 {
        assert(Said::nothing().heard() =~= Said::nothing());
    } else {
        let less = s.drop_last();
        law_stream_says_the_events(a, less, call);
        let b = a.collected(less);
        let more = b.items(s.last());
        lemma_wires_say_add(all_items(a, less), more, call);
        lemma_heard_and(events_say(less, call), event_says(s.last(), call));
        match s.last() {
            EventView::Stopped { .. } => {
                let c = b.choice.applied(s.last());
                lemma_end_says(
                    b.include_usage,
                    finish_reason(c.stop, c.tool_calls.len() > 0),
                    usage_of(b.prompt_len, b.inputs, b.request_id),
                    call,
                );
            },
            EventView::ToolCallEnd { .. } => {},
            EventView::ReasoningDelta(t) => lemma_wire_says_one(
                WireView::<F>::Reasoning(t),
                call,
            ),
            EventView::ContentDelta(t) => lemma_wire_says_one(WireView::<F>::Content(t), call),
            EventView::ToolCallStart { id, name, idx } => lemma_wire_says_one(
                WireView::<F>::CallStart { id, name, idx },
                call,
            ),
            EventView::ToolCallArgDelta { args, idx } => lemma_wire_says_one(
                WireView::<F>::CallArgs { args, idx },
                call,
            ),
        }
        assert(wires_say(more, call) =~= event_says(s.last(), call).heard());
    }
}

/// What a client reads off a stream is the record of it: the content, the
/// reasoning, and of a call that has begun and not ended the arguments so far.
pub proof fn law_stream_is_the_record<F>(a: AdapterView<F>, s: Seq<EventView>, call: usize)
    requires
        a.choice == BuilderView::empty(0),
    ensures
        wires_say(all_items(a, s), call).content == a.collected(s).choice.content,
        wires_say(all_items(a, s), call).reasoning == a.collected(s).choice.reasoning,
{
    law_stream_says_the_events(a, s, call);
    lemma_says_texts(s, call);
    law_roll_up_is_stream(0, s);
}

/// The item that reports the usage: the last one, or the one before it where
/// the usage comes apart.
pub open spec fn usage_item<F>(items: Seq<WireView<F>>, apart: bool) -> WireView<F> {
    if apart {
        items[items.len() - 2]
    } else {
        items[items.len() - 1]
    }
}

/// A stream ends with its finish reason and its usage: `tool_calls` where a call
/// was finished, else what ended the completion; the usage apart and before the
/// end where the client asked for it, and the tokens summed.
pub proof fn law_stream_ends<F>(a: AdapterView<F>, s: Seq<EventView>, reason: StopView)
    requires
        s.len() > 0,
        s.last() == (EventView::Stopped { reason }),
        a.prompt_len + a.inputs.completion_tokens <= usize::MAX,
    ensures
        ({
            let items = all_items(a, s);
            let calls = a.collected(s).choice.tool_calls;
            &&& items.len() > 0
            &&& a.include_usage ==> items.len() > 1
            &&& (items.last() is Done) == !a.include_usage
            &&& calls.len() > 0 ==> ends_with(items.last(), "tool_calls"@)
            &&& calls.len() == 0 ==> match reason {
                StopView::Upstream(w) => ends_with(items.last(), w),
                StopView::StopString(_) => ends_with(items.last(), "stop"@),
                StopView::GrammarTerminated => ends_with(items.last(), "tool_calls"@),
            }
            &&& exists|u: UsageView<F>|
                {
                    &&& #[trigger] reports(usage_item(items, a.include_usage), u)
                    &&& u.prompt_tokens == a.prompt_len
                    &&& u.completion_tokens == a.inputs.completion_tokens
                    &&& u.total_tokens == a.prompt_len + a.inputs.completion_tokens
                    &&& u.request_id == a.request_id
                    &&& u.time_to_first_token_ms == a.inputs.time_to_first_token_ms
                    &&& u.response_tokens_per_second == a.inputs.response_tokens_per_second
                    &&& u.prompt_tokens_details matches Some(d) && d.cached_tokens
                        == a.inputs.cached_prompt_tokens && d.audio_tokens == 0
                    &&& u.completion_tokens_details matches Some(d) && d.reasoning_tokens
                        == a.inputs.reasoning_tokens && d.accepted_prediction_tokens
                        == a.inputs.accepted_prediction_tokens && d.rejected_prediction_tokens
                        == a.inputs.rejected_prediction_tokens && d.audio_tokens == 0
                }
        }),
{
    let b = a.collected(s.drop_last());
    let more = b.items(s.last());
    let u = usage_of(a.prompt_len, a.inputs, a.request_id);
    let items = all_items(a, s);
    assert(b.choice.applied(s.last()) == a.collected(s).choice);
    assert(items.last() == more.last());
    if a.include_usage {
        assert(items[items.len() - 2] == more[0]);
        assert(reports(usage_item(items, true), u));
    } else {
        assert(items[items.len() - 1] == more[0]);
        assert(reports(usage_item(items, false), u));
    }
}

/// What is given back at the end of a stream and what was used make up what was
/// reserved, unless more was used.
pub proof fn law_refund_is_the_rest(reserved: u64, used: int)
    requires
        0 <= used,
    ensures
        used <= reserved ==> refund_due(reserved, used) + used == reserved,
        used > reserved ==> refund_due(reserved, used) == 0,
{
}

/// At the end of a stream the tokens that were not used are given back.
pub proof fn law_end_refunds<F>(a: AdapterView<F>)
    ensures
        a.ended().completion_tokens == a.inputs.completion_tokens,
        a.reserved_tokens is None ==> a.ended().refund == 0,
        a.reserved_tokens matches Some(r) ==> (a.prompt_len + a.inputs.completion_tokens <= r
            ==> a.ended().refund + a.prompt_len + a.inputs.completion_tokens == r),
{
}

/// The line that is logged at the end of a call names the call, and shows its
/// arguments from their beginning.
pub proof fn law_log_names_the_call<F>(a: AdapterView<F>, call: usize)
    requires
        a.choice.pending.contains_key(call),
        a.choice.pending[call].args.len() <= 120,
    ensures
        a.log(EventView::ToolCallEnd { idx: call }) == Some(
            "Tool call: "@ + a.choice.pending[call].name + "("@ + a.choice.pending[call].args
                + ")"@,
        ),
{
    let p = a.choice.pending[call];
    reveal_strlit("");
    assert(p.args + ""@ =~= p.args);
    let calls = a.choice.applied(EventView::ToolCallEnd { idx: call }).tool_calls;
    assert(calls.last().name == p.name);
    assert(calls.last().arguments == p.args);
}

/// Without stop strings a client reads off a stream all that the scanner and
/// the detector said of the decoded text, to its end.
pub proof fn law_client_reads_all<F>(
    a: AdapterView<F>,
    m: CoreView,
    ins: Seq<StepInput>,
    tail: Option<Seq<char>>,
    outs: Option<Seq<OutputView>>,
    reason: Seq<char>,
    call: usize,
)
    requires
        m.stop is None,
        !m.stopped,
    ensures
        wires_say(
            items_after(a, m, ins) + all_items(
                record_after(a, m, ins),
                run(m, ins).0.finish(tail, outs, reason).1,
            ),
            call,
        ) == steps_say(m, ins, call).and(
            match tail {
                Some(t) => Said::thought(t),
                None => Said::nothing(),
            },
        ).and(
            match outs {
                Some(o) => outputs_say(o, call),
                None => Said::nothing(),
            },
        ).heard(),
{
    let s = run(m, ins).1;
    let t = run(m, ins).0.finish(tail, outs, reason).1;
    law_completion_says_all(m, ins, tail, outs, reason, call);
    lemma_items_after(a, m, ins);
    lemma_record_after(a, m, ins);
    law_stream_says_the_events(a, s, call);
    law_stream_says_the_events(a.collected(s), t, call);
    lemma_wires_say_add(all_items(a, s), all_items(a.collected(s), t), call);
    lemma_events_say_add(s, t, call);
    lemma_heard_and(events_say(s, call), events_say(t, call));
}

// ---------------------------------------------------------------------------
// Items in chunks
// ---------------------------------------------------------------------------
/// What a call delta of a chunk says.
pub open spec fn call_delta_says(c: ChunkCallView, call: usize) -> Said {
    Said {
        starts: match (c.id, c.name) {
            (Some(id), Some(name)) => seq![(id, name, c.index)],
            _ => Seq::empty(),
        },
        args: if c.index == call {
            c.arguments
        } else {
            Seq::empty()
        },
        ..Said::nothing()
    }
}

/// What a client reads off a chunk of one choice.
pub open spec fn chunk_says<F, L>(c: ChatCompletionChunk<F, L>, call: usize) -> Said {
    if c.choices@.len() == 0 {
        Said::nothing()
    } else {
        let d = c.choices@[0].delta;
        let calls = match d.tool_calls {
            Some(v) => if v@.len() > 0 {
                call_delta_says(v@[0]@, call)
            } else {
                Said::nothing()
            },
            None => Said::nothing(),
        };
        Said {
            reasoning: match d.reasoning_content {
                Some(t) => t@,
                None => Seq::empty(),
            },
            content: match d.content {
                Some(t) => t@,
                None => Seq::empty(),
            },
            ..calls
        }
    }
}

/// The chunk of an item says what the item says, reasoning under both names
/// that clients read, and carries the identifier, the time and the model of the
/// completion; the end carries its finish reason, and the usage is reported as
/// it is.
pub proof fn law_chunk_says_the_item<F, L>(
    c: ChatCompletionChunk<F, L>,
    w: WireView<F>,
    model: Seq<char>,
    id: Seq<char>,
    created: u64,
    call: usize,
)
    requires
        carries(c, w, model, id, created),
    ensures
        chunk_says(c, call) == wire_says(w, call),
        c.id@ == id,
        c.model@ == model,
        c.created == created,
        c.object@ == "chat.completion.chunk"@,
        c.choices@.len() > 0 ==> c.choices@[0].index == 0 && opt_view(
            c.choices@[0].delta.reasoning,
        ) == opt_view(c.choices@[0].delta.reasoning_content) && (c.choices@[0].delta.tool_calls matches Some(
            v,
        ) ==> v@.len() == 1),
        forall|f: Seq<char>|
            ends_with(w, f) <==> #[trigger] finishes(c, f),
        c.usage matches Some(u) ==> reports(w, u@),
        (c.usage is Some) == (w is UsageOnly || w is Done),
        (c.choices@.len() == 0) == (w is UsageOnly),
{
    if c.choices@.len() > 0 {
        let d = c.choices@[0].delta;
        let v = d@;
        match d.tool_calls {
            Some(calls) => {
                assert(v.tool_calls->0.len() == calls@.len());
                if calls@.len() > 0 {
                    assert(v.tool_calls->0[0] == calls@[0]@);
                }
            },
            None => {},
        }
    }
    assert(chunk_says(c, call) =~= wire_says(w, call));
}

/// The chunk ends its choice with this finish reason.
pub open spec fn finishes<F, L>(c: ChatCompletionChunk<F, L>, f: Seq<char>) -> bool {
    c.choices@.len() > 0 && opt_view(c.choices@[0].finish_reason) == Some(f)
}

// ---------------------------------------------------------------------------
// The handlers of decoded text
// ---------------------------------------------------------------------------
proof fn lemma_item_says<F>(t: Seq<char>, idx: usize, call: usize)
    ensures
        wires_say(content_item::<F>(t), call) == Said::text(t),
        wires_say(reasoning_item::<F>(t), call) == Said::thought(t),
        wires_say(args_item::<F>(t, idx), call) == (Said {
            args: if idx == call {
                t
            } else {
                Seq::empty()
            },
            ..Said::nothing()
        }),
{
    if t.len() == 0 {
        assert(t =~= Seq::<char>::empty());
    } else {
        lemma_wire_says_one(WireView::<F>::Content(t), call);
        lemma_wire_says_one(WireView::<F>::Reasoning(t), call);
        lemma_wire_says_one(WireView::<F>::CallArgs { args: t, idx }, call);
    }
}

/// While a stream runs and no tags are looked for, all that the detector says
/// goes out, in its order.
pub proof fn law_outputs_reach_the_client<F>(
    s: StateView,
    outs: Seq<OutputView>,
    rules: RulesView,
    call: usize,
)
    requires
        rules.markers.off(),
        s.outputs::<F>(outs, rules).0.phase != StreamPhase::Stopped,
    ensures
        wires_say(s.outputs::<F>(outs, rules).1, call) == outputs_say(outs, call).heard(),
    decreases outs.len(),
{
    if outs.len() == 0 {
        assert(Said::nothing().heard() =~= Said::nothing());
    } else {
        let less = outs.drop_last();
        let o = outs.last();
        let (t, w) = s.outputs::<F>(less, rules);
        law_outputs_reach_the_client::<F>(s, less, rules, call);
        let (n, x) = t.output::<F>(o, rules);
        lemma_wires_say_add(w, x, call);
        lemma_heard_and(outputs_say(less, call), output_says(o, call));
        lemma_output_heard::<F>(t, o, rules, call);
    }
}

proof fn lemma_output_heard<F>(s: StateView, o: OutputView, rules: RulesView, call: usize)
    requires
        rules.markers.off(),
    ensures
        wires_say(s.output::<F>(o, rules).1, call) == output_says(o, call).heard(),
{
    let x = s.output::<F>(o, rules).1;
    match o {
        OutputView::Content(t) => lemma_item_says::<F>(t, call, call),
        OutputView::ToolCall(c, idx) => {
            let a = WireView::<F>::CallStart { id: c.id, name: c.name, idx };
            let b = WireView::<F>::CallArgs { args: c.arguments, idx };
            lemma_wire_says_one(a, call);
            lemma_wire_says_one(b, call);
            assert(x =~= seq![a] + seq![b]);
            lemma_wires_say_add(seq![a], seq![b], call);
        },
        OutputView::ToolCallStart { id, name, idx } => lemma_wire_says_one(
            WireView::<F>::CallStart { id, name, idx },
            call,
        ),
        OutputView::ToolCallDelta { args, idx } => lemma_item_says::<F>(args, idx, call),
        OutputView::ToolCallEnd { .. } => {},
    }
    assert(wires_say(x, call) =~= output_says(o, call).heard());
}

/// The record of a state holds, behind what it held, what goes out.
spec fn records<F>(s: StateView, t: StateView, w: Seq<WireView<F>>) -> bool {
    &&& t.content == s.content + wires_say(w, 0).content
    &&& t.reasoning == s.reasoning + wires_say(w, 0).reasoning
}

proof fn lemma_records_add<F>(
    s: StateView,
    t: StateView,
    u: StateView,
    w: Seq<WireView<F>>,
    x: Seq<WireView<F>>,
)
    requires
        records(s, t, w),
        records(t, u, x),
    ensures
        records(s, u, w + x),
{
    lemma_wires_say_add(w, x, 0);
    assert(u.content =~= s.content + wires_say(w + x, 0).content);
    assert(u.reasoning =~= s.reasoning + wires_say(w + x, 0).reasoning);
}

proof fn lemma_records_nothing<F>(s: StateView, t: StateView)
    requires
        t.content == s.content,
        t.reasoning == s.reasoning,
    ensures
        records(s, t, Seq::<WireView<F>>::empty()),
{
    assert(s.content + Seq::<char>::empty() =~= s.content);
    assert(s.reasoning + Seq::<char>::empty() =~= s.reasoning);
}

proof fn lemma_passed_records<F>(s: StateView, text: Seq<char>, rules: RulesView)
    ensures
        records(s, s.passed::<F>(text, rules.markers).0, s.passed::<F>(text, rules.markers).1),
        records(s, s.drained::<F>(rules.markers).0, s.drained::<F>(rules.markers).1),
{
    let clean = s.filtered(text, rules.markers).1;
    let rest = s.held_back(rules.markers);
    lemma_item_says::<F>(clean, 0, 0);
    lemma_item_says::<F>(rest, 0, 0);
    assert(s.reasoning + Seq::<char>::empty() =~= s.reasoning);
}

proof fn lemma_output_records<F>(s: StateView, o: OutputView, rules: RulesView)
    ensures
        records(s, s.output::<F>(o, rules).0, s.output::<F>(o, rules).1),
{
    match o {
        OutputView::Content(t) => lemma_passed_records::<F>(s, t, rules),
        OutputView::ToolCall(c, idx) => {
            let a = WireView::<F>::CallStart { id: c.id, name: c.name, idx };
            let b = WireView::<F>::CallArgs { args: c.arguments, idx };
            lemma_wire_says_one(a, 0);
            lemma_wire_says_one(b, 0);
            assert(s.output::<F>(o, rules).1 =~= seq![a] + seq![b]);
            lemma_wires_say_add(seq![a], seq![b], 0);
            assert(s.content + Seq::<char>::empty() =~= s.content);
            assert(s.reasoning + Seq::<char>::empty() =~= s.reasoning);
            assert(Seq::<char>::empty() + Seq::<char>::empty() =~= Seq::<char>::empty());
        },
        OutputView::ToolCallStart { id, name, idx } => {
            lemma_wire_says_one(WireView::<F>::CallStart { id, name, idx }, 0);
            lemma_records_nothing::<F>(s, s);
        },
        OutputView::ToolCallDelta { args, idx } => {
            lemma_item_says::<F>(args, idx, 0);
            lemma_records_nothing::<F>(s, s);
        },
        OutputView::ToolCallEnd { .. } => {
            lemma_records_nothing::<F>(s, s);
        },
    }
}

proof fn lemma_outputs_record<F>(s: StateView, outs: Seq<OutputView>, rules: RulesView)
    ensures
        records(s, s.outputs::<F>(outs, rules).0, s.outputs::<F>(outs, rules).1),
    decreases outs.len(),
{
    if outs.len() == 0 {
        lemma_records_nothing::<F>(s, s);
    } else {
        let less = outs.drop_last();
        let (t, w) = s.outputs::<F>(less, rules);
        lemma_outputs_record::<F>(s, less, rules);
        if t.phase != StreamPhase::Stopped {
            lemma_output_records::<F>(t, outs.last(), rules);
            let (u, x) = t.output::<F>(outs.last(), rules);
            lemma_records_add(s, t, u, w, x);
        }
    }
}

proof fn lemma_content_records<F>(
    s: StateView,
    chunk: Seq<char>,
    rules: RulesView,
    outs: Option<Seq<OutputView>>,
)
    ensures
        records(
            s,
            s.content_step::<F>(chunk, rules, outs).0,
            s.content_step::<F>(chunk, rules, outs).1,
        ),
{
    let delta = trimmed_delta(chunk, s.content_started);
    let b = s.started(chunk);
    lemma_records_nothing::<F>(s, b);
    if delta.len() > 0 {
        let (t, w, rest) = b.accepted::<F>(delta, rules);
        let all = b.accumulated + delta;
        let seen = StateView { accumulated: all, ..b };
        if b.phase == StreamPhase::Stopped || rules.stops.len() == 0 {
            lemma_records_nothing::<F>(b, t);
        } else {
            match stop_position(
                all,
                rules.stops,
                rules.stops.len(),
            ) {
                Some(pos) => {
                    let text = before_stop(
                        all,
                        b.accumulated.len() as int,
                        pos,
                    );
                    lemma_passed_records::<F>(seen, text, rules);
                    let (p, wp) = seen.passed::<F>(text, rules.markers);
                    lemma_passed_records::<F>(p, text, rules);
                    let (d, wd) = p.drained::<F>(rules.markers);
                    lemma_records_add(seen, p, d, wp, wd);
                    assert(records(b, t, w));
                },
                None => lemma_records_nothing::<F>(b, t),
            }
        }
        assert(records(b, t, w));
        lemma_records_add(s, b, t, Seq::<WireView<F>>::empty(), w);
        assert(Seq::<WireView<F>>::empty() + w =~= w);
        if let Some(d) = rest {
            let (n, x) = match outs {
                Some(o) => t.outputs::<F>(o, rules),
                None => t.passed::<F>(d, rules.markers),
            };
            match outs {
                Some(o) => lemma_outputs_record::<F>(t, o, rules),
                None => lemma_passed_records::<F>(t, d, rules),
            }
            lemma_records_add(s, t, n, w, x);
        }
    }
}

/// The record of a stream is what went out: after a token, and at the end, it
/// holds what it held and the content and the reasoning of the new items.
pub proof fn law_handlers_record_what_goes_out<F>(
    s: StateView,
    chunk: Seq<char>,
    has_scanner: bool,
    enable_thinking: bool,
    rules: RulesView,
    scan: ScanView,
    outs: Option<Seq<OutputView>>,
    tail: Option<Seq<char>>,
)
    ensures
        ({
            let (t, w) = s.token::<F>(chunk, has_scanner, enable_thinking, rules, scan, outs);
            &&& t.content == s.content + wires_say(w, 0).content
            &&& t.reasoning == s.reasoning + wires_say(w, 0).reasoning
        }),
        ({
            let (t, w) = s.tails::<F>(outs, tail, rules);
            &&& t.content == s.content + wires_say(w, 0).content
            &&& t.reasoning == s.reasoning + wires_say(w, 0).reasoning
        }),
{
    // The token.
    if s.phase != StreamPhase::Thinking {
        lemma_content_records::<F>(s, chunk, rules, outs);
    } else if !has_scanner {
        lemma_content_records::<F>(s.in_content(), chunk, rules, outs);
    } else {
        let n = s.scanned(scan, enable_thinking);
        let text = StateView::scan_text(scan, enable_thinking);
        let w = reasoning_item::<F>(text);
        lemma_item_says::<F>(text, 0, 0);
        assert(s.content + Seq::<char>::empty() =~= s.content);
        assert(records(s, n, w));
        if let ScanView::Transition { content_start, .. } = scan {
            if content_start.len() > 0 {
                lemma_content_records::<F>(n, content_start, rules, outs);
                let (t, x) = n.content_step::<F>(content_start, rules, outs);
                lemma_records_add(s, n, t, w, x);
            }
        }
    }
    // The end.
    lemma_records_nothing::<F>(s, s);
    if s.phase != StreamPhase::Stopped {
        let (t, w) = match outs {
            Some(o) => s.outputs::<F>(o, rules),
            None => (s, Seq::empty()),
        };
        if let Some(o) = outs {
            lemma_outputs_record::<F>(s, o, rules);
        }
        if t.phase != StreamPhase::Stopped {
            lemma_passed_records::<F>(t, Seq::empty(), rules);
            let (u, x) = t.drained::<F>(rules.markers);
            lemma_records_add(s, t, u, w, x);
            if let Some(r) = tail {
                lemma_item_says::<F>(r, 0, 0);
                assert(u.content + Seq::<char>::empty() =~= u.content);
                lemma_records_add(s, u, u.thought(r), w + x, reasoning_item::<F>(r));
            }
        }
    }
}

/// While a stream runs, with no tags to look for and no stop strings, a token
/// says what the scanner and the detector made of it, or the text itself where
/// there is no detector. Reasoning is shown where thinking was asked for.
pub proof fn law_token_says_all<F>(
    s: StateView,
    chunk: Seq<char>,
    has_scanner: bool,
    enable_thinking: bool,
    rules: RulesView,
    scan: ScanView,
    outs: Option<Seq<OutputView>>,
    call: usize,
)
    requires
        rules.markers.off(),
        rules.stops.len() == 0,
        s.token::<F>(chunk, has_scanner, enable_thinking, rules, scan, outs).0.phase
            != StreamPhase::Stopped,
    ensures
        ({
            let says = wires_say(
                s.token::<F>(chunk, has_scanner, enable_thinking, rules, scan, outs).1,
                call,
            );
            if s.phase == StreamPhase::Thinking && has_scanner {
                match scan {
                    ScanView::Continue { emit } => says == if enable_thinking {
                        Said::thought(emit)
                    } else {
                        Said::nothing()
                    },
                    ScanView::Transition { final_reasoning, content_start } => says == (
                    if enable_thinking {
                        Said::thought(final_reasoning)
                    } else {
                        Said::nothing()
                    }).and(piece_says(s.content_started, content_start, outs, call)),
                }
            } else {
                says == piece_says(s.content_started, chunk, outs, call)
            }
        }),
{
    if s.phase == StreamPhase::Thinking && has_scanner {
        let n = s.scanned(scan, enable_thinking);
        let text = StateView::scan_text(scan, enable_thinking);
        lemma_item_says::<F>(text, call, call);
        if let ScanView::Transition { final_reasoning, content_start } = scan {
            let head = Said::thought(text);
            lemma_and(head, head, head);
            if content_start.len() > 0 {
                lemma_piece::<F>(n, content_start, rules, outs, call);
                lemma_wires_say_add(
                    reasoning_item::<F>(text),
                    n.content_step::<F>(content_start, rules, outs).1,
                    call,
                );
            } else {
                assert(content_start =~= Seq::<char>::empty());
            }
        }
    } else if s.phase == StreamPhase::Thinking {
        lemma_piece::<F>(s.in_content(), chunk, rules, outs, call);
    } else {
        lemma_piece::<F>(s, chunk, rules, outs, call);
    }
}

/// What a piece of content says to a client.
pub open spec fn piece_says(
    started: bool,
    chunk: Seq<char>,
    outs: Option<Seq<OutputView>>,
    call: usize,
) -> Said {
    let text = if started {
        chunk
    } else {
        trim_start(chunk, CharSet::White)
    };
    if text.len() == 0 {
        Said::nothing()
    } else {
        match outs {
            Some(o) => outputs_say(o, call).heard(),
            None => Said::text(text),
        }
    }
}

proof fn lemma_piece<F>(
    s: StateView,
    chunk: Seq<char>,
    rules: RulesView,
    outs: Option<Seq<OutputView>>,
    call: usize,
)
    requires
        rules.markers.off(),
        rules.stops.len() == 0,
        s.phase != StreamPhase::Stopped,
        s.content_step::<F>(chunk, rules, outs).0.phase != StreamPhase::Stopped,
    ensures
        wires_say(s.content_step::<F>(chunk, rules, outs).1, call) == piece_says(
            s.content_started,
            chunk,
            outs,
            call,
        ),
{
    let delta = trimmed_delta(chunk, s.content_started);
    let b = s.started(chunk);
    if delta.len() > 0 {
        match outs {
            Some(o) => {
                law_outputs_reach_the_client::<F>(b, o, rules, call);
                let x = b.outputs::<F>(o, rules).1;
                assert(Seq::<WireView<F>>::empty() + x =~= x);
            },
            None => {
                lemma_item_says::<F>(delta, call, call);
                let x = b.passed::<F>(delta, rules.markers).1;
                assert(Seq::<WireView<F>>::empty() + x =~= x);
            },
        }
    }
}

/// A call that a stream puts together is kept whole: with the identifier and
/// the name that it began with and all the arguments that came.
pub proof fn law_handlers_keep_calls<F>(
    s: StateView,
    outs: Seq<OutputView>,
    rules: RulesView,
    call: usize,
)
    requires
        s.pending.contains_key(call),
        s.outputs::<F>(outs, rules).0.phase != StreamPhase::Stopped,
        forall|i: int| 0 <= i < outs.len() ==> !touches(#[trigger] outs[i], call),
    ensures
        ({
            let t = s.outputs::<F>(outs, rules).0;
            let p = s.pending[call];
            let done = t.called::<F>(OutputView::ToolCallEnd { idx: call }).0.calls;
            &&& t.pending.contains_key(call)
            &&& done.len() == t.calls.len() + 1
            &&& done.last().id == p.id
            &&& done.last().name == p.name
            &&& done.last().arguments == p.args + outputs_say(outs, call).args
            &&& done.last().call_type == "function"@
        }),
    decreases outs.len(),
{
    let p = s.pending[call];
    if outs.len() == 0 {
        assert(p.args + Seq::<char>::empty() =~= p.args);
    } else {
        let less = outs.drop_last();
        assert(!touches(outs[outs.len() - 1], call));
        assert forall|i: int| 0 <= i < less.len() implies !touches(#[trigger] less[i], call) by {
            assert(less[i] == outs[i]);
        }
        law_handlers_keep_calls::<F>(s, less, rules, call);
        let t = s.outputs::<F>(less, rules).0;
        let u = s.outputs::<F>(outs, rules).0;
        assert(t.pending[call].args == p.args + outputs_say(less, call).args);
        assert(u.pending.contains_key(call));
        assert(u.pending[call].args =~= p.args + outputs_say(outs, call).args);
    }
}

/// The output begins or ends this call.
pub open spec fn touches(o: OutputView, call: usize) -> bool {
    match o {
        OutputView::ToolCall(_, idx) => idx == call,
        OutputView::ToolCallStart { idx, .. } => idx == call,
        OutputView::ToolCallEnd { idx } => idx == call,
        _ => false,
    }
}

/// A call that the detector found whole is kept as it was found, behind those
/// that were kept before; one that begins is pending under its index.
pub proof fn law_handlers_take_calls<F>(s: StateView, o: OutputView, rules: RulesView)
    ensures
        ({
            let t = s.output::<F>(o, rules).0;
            &&& o matches OutputView::ToolCall(c, _) ==> t.calls.len() == s.calls.len() + 1
                && t.calls.last() == c && t.calls.drop_last() == s.calls
            &&& o matches OutputView::ToolCallStart { id, name, idx } ==> t.pending.contains_key(
                idx,
            ) && t.pending[idx].id == id && t.pending[idx].name == name
                && t.pending[idx].args.len() == 0
        }),
{
    if let OutputView::ToolCall(c, _) = o {
        assert(s.calls.push(c).drop_last() =~= s.calls);
    }
}

/// The message of a stream holds what was recorded: its content, its reasoning
/// and its calls, where there are any, and is the assistant's.
pub proof fn law_stream_message_is_the_record(s: StateView)
    ensures
        s.message().role == "assistant"@,
        s.message().content matches Some(t) ==> t == s.content,
        s.message().content is None ==> s.content.len() == 0,
        s.message().reasoning_content matches Some(t) ==> t == s.reasoning,
        s.message().reasoning_content is None ==> s.reasoning.len() == 0,
        s.message().tool_calls matches Some(c) ==> c == s.calls,
        s.message().tool_calls is None ==> s.calls.len() == 0,
{
}

/// A stream in which the detector found a call ends with `tool_calls`, and any
/// other with the scheduler's word.
pub proof fn law_found_calls_are_the_reason(upstream: Seq<char>)
    ensures
        end_reason(true, upstream) == "tool_calls"@,
        end_reason(false, upstream) == upstream,
{
}

/// The detector of a stream sees all the content, from the first that is not
/// white space on, as long as no stop string stands in it; a stream begins with
/// nothing said.
pub proof fn law_detector_sees_the_content<F>(s: StateView, chunk: Seq<char>, rules: RulesView)
    requires
        s.phase != StreamPhase::Stopped,
        chunk.len() > 0,
        forall|i: int|
            0 <= i < rules.stops.len() ==> !contains(
                s.accumulated + trimmed_delta(chunk, s.content_started),
                #[trigger] rules.stops[i],
            ),
    ensures
        s.content_started ==> s.shown::<F>(chunk, rules) == Some(chunk),
        !s.content_started && trim_start(chunk, CharSet::White).len() > 0 ==> s.shown::<F>(
            chunk,
            rules,
        ) == Some(trim_start(chunk, CharSet::White)),
{
    let all = s.accumulated + trimmed_delta(chunk, s.content_started);
    lemma_no_stop(all, rules.stops, rules.stops.len());
}

proof fn lemma_no_stop(all: Seq<char>, stops: Seq<Seq<char>>, n: nat)
    requires
        n <= stops.len(),
        forall|i: int| 0 <= i < stops.len() ==> !contains(all, #[trigger] stops[i]),
    ensures
        stop_position(all, stops, n) is None,
    decreases n,
{
    if n > 0 {
        lemma_no_stop(all, stops, (n - 1) as nat);
        lemma_find_from(all, stops[n - 1], 0);
        if let Some(p) = find(all, stops[n - 1]) {
            assert(occurs_at(all, stops[n - 1], p));
            assert(!contains(all, stops[n - 1]));
        }
    }
}

/// A stream begins with nothing said and nothing held back, in thinking where
/// that was asked for; going back to thinking loses nothing of what was said.
pub proof fn law_stream_begins_empty(enable_thinking: bool, s: StateView)
    ensures
        ({
            let b = StateView::start(enable_thinking);
            &&& b.content.len() == 0 && b.reasoning.len() == 0 && b.calls.len() == 0
            &&& b.accumulated.len() == 0 && b.tag_buf.len() == 0 && b.loop_buf.len() == 0
            &&& !b.suppressing && !b.inside && !b.looped
            &&& b.phase == StreamPhase::Thinking <==> enable_thinking
            &&& b.phase == StreamPhase::Content <==> !enable_thinking
        }),
        s.in_thinking().content == s.content,
        s.in_thinking().reasoning == s.reasoning,
        s.in_thinking().calls == s.calls,
        s.in_thinking().pending == s.pending,
        s.phase == StreamPhase::Content ==> s.in_thinking().phase == StreamPhase::Thinking,
        s.phase != StreamPhase::Content ==> s.in_thinking() == s,
{
}

/// Every call that ends is logged.
pub proof fn law_every_call_is_logged<F>(a: AdapterView<F>, s: Seq<EventView>, i: int)
    requires
        0 <= i < s.len(),
        a.collected(s.take(i)).log(s[i]) is Some,
    ensures
        all_logs(a, s).contains(a.collected(s.take(i)).log(s[i])->0),
    decreases s.len(),
{
    let less = s.drop_last();
    let before = all_logs(a, less);
    let all = all_logs(a, s);
    let line = a.collected(s.take(i)).log(s[i])->0;
    if i < less.len() {
        assert(less.take(i) =~= s.take(i));
        law_every_call_is_logged(a, less, i);
        let k = choose|k: int| 0 <= k < before.len() && before[k] == line;
        assert(all[k] == line);
    } else {
        assert(s.take(i) =~= less);
        assert(all[before.len() as int] == line);
    }
}

/// Every chunk bears the identifier of its completion, its time and its model;
/// the last one gives the reason and, where it is asked to, the tokens.
pub proof fn law_chunks_are_named<F, L>(
    c: ChatCompletionChunk<F, L>,
    w: WireView<F>,
    model: Seq<char>,
    id: Seq<char>,
    created: u64,
)
    requires
        carries(c, w, model, id, created),
    ensures
        c.id@ == id,
        c.created == created,
        c.model@ == model,
        c.object@ == "chat.completion.chunk"@,
        w matches WireView::Done(f, u) ==> c.choices@.len() == 1 && opt_view(
            c.choices@[0].finish_reason,
        ) == Some(f) && (c.usage matches Some(x) && x@ == u),
        w matches WireView::FinalNoUsage(f) ==> c.choices@.len() == 1 && opt_view(
            c.choices@[0].finish_reason,
        ) == Some(f) && c.usage is None,
        w matches WireView::UsageOnly(u) ==> c.choices@.len() == 0 && (c.usage matches Some(x) && x@
            == u),
        !(w is Done) && !(w is FinalNoUsage) && !(w is UsageOnly) ==> c.choices@.len() == 1
            && c.choices@[0].finish_reason is None && c.choices@[0].index == 0 && c.usage is None,
{
}

/// Events that end no call are not logged, nor is the end of one that never
/// began.
pub proof fn law_only_calls_are_logged<F>(a: AdapterView<F>, e: EventView)
    ensures
        !(e is ToolCallEnd) ==> a.log(e) is None,
        a.choice.tool_calls.len() == 0 && a.applied(e).choice.tool_calls.len() == 0 ==> a.log(
            e,
        ) is None,
{
}

/// What comes of a batch of events is what the client reads, and the end where
/// one of them stops the completion.
pub proof fn law_batch_is_streamed<F>(a: AdapterView<F>, s: Seq<EventView>, r: Streamed<F>, i: int)
    requires
        streams(a, s, r),
    ensures
        wire_views(r.items@) == all_items(a, s),
        0 <= i < s.len() && s[i] is Stopped ==> r.ended == Some(a.ended()),
        (forall|k: int| 0 <= k < s.len() ==> !(#[trigger] s[k] is Stopped)) ==> r.ended is None,
{
    if 0 <= i < s.len() && s[i] is Stopped {
        assert(has_stop(s));
    }
}

/// The chunk that starts a call comes from the assistant and names the call, its
/// function and its place.
pub proof fn law_call_chunks_name_the_call<F, L>(
    c: ChatCompletionChunk<F, L>,
    call: Seq<char>,
    name: Seq<char>,
    idx: usize,
    model: Seq<char>,
    id: Seq<char>,
    created: u64,
)
    requires
        carries(c, WireView::<F>::CallStart { id: call, name, idx }, model, id, created),
    ensures
        ({
            let d = c.choices@[0].delta@;
            &&& d.role == Some("assistant"@)
            &&& d.tool_calls matches Some(l) && l.len() == 1 && l[0].id == Some(call) && l[0].name
                == Some(name) && l[0].index == idx && l[0].call_type == Some("function"@)
        }),
{
}

} // verus!

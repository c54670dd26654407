//! What is said of a value is all there is of it.
use vstd::prelude::*;
use crate::api_error::ApiError;
use crate::chat::entries::{entry_views, opt_json_views, MsgEntry};
use crate::chat_blocking::{found_view, FoundCalls};
use crate::chat_fsm::assemble::stop_view;
use crate::chat_fsm::events::{event_views, EventView, FsmEvent, StopReason, StopView};
use crate::chat_fsm::stepper::opt_output_views;
use crate::chat_stream::wire::{wire_views, Wire, WireView};
use crate::failures::breaker::F39PermanentFailureMatch;
use crate::failures::duplicate::F49DuplicateWrite;
use crate::failures::stall::F29EnvironmentFact;
use crate::grammar::schema::ToolSchemaError;
use crate::inference::image_view;
use crate::json::{json_views, lemma_json_views, lemma_member_views, Json, JsonView};
use crate::listing::ListQuery;
use crate::messages::{message_views, IncomingMessage};
use crate::middleware::header_views;
use crate::openai::chat_response::{ChunkDelta, Usage};
use crate::openai::types::{opt_annotations, Annotation, ChatMessage};
use crate::responses::{opt_json, ItemView, ResponsesOutputItem};
use crate::text::{opt_str, views};
use crate::tools::{
    call_views, opt_view, output_views, ChunkToolCall, DetectorOutput, IncomingToolCall, OutputView,
    ToolCall,
};

verus! {

/// A call is its identifier, its type, its name and its arguments.
pub proof fn law_calls_are_shown(c: ToolCall, i: IncomingToolCall, d: ChunkToolCall)
    ensures
        c@.id == c.id@,
        c@.call_type == c.call_type@,
        c@.name == c.function.name@,
        c@.arguments == c.function.arguments@,
        i@.id == opt_view(i.id),
        i@.name == i.function.name@,
        i@.arguments == i.function.arguments@,
        d@.index == d.index,
        d@.id == opt_view(d.id),
        d@.call_type == opt_view(d.call_type),
        d@.name == opt_view(d.function.name),
        d@.arguments == d.function.arguments@,
{
}

/// An optional text is the text that is there, and none where there is none.
pub proof fn law_optional_texts_are_shown(s: String)
    ensures
        opt_view(Some(s)) == Some(s@),
        opt_view(None) is None,
{
}

/// A message is its role, its text, its images, its calls and what it answers;
/// a list of messages is each of them, in order.
pub proof fn law_messages_are_shown(m: IncomingMessage, l: Seq<IncomingMessage>, i: int, k: int)
    ensures
        m@.role == m.role@,
        m@.text == m.content.text@,
        m@.images.len() == m.content.images@.len(),
        0 <= k < m.content.images@.len() ==> m@.images[k] == m.content.images@[k]@,
        m.tool_calls matches Some(c) ==> (m@.tool_calls matches Some(v) && v.len() == c@.len() && (0
            <= k < c@.len() ==> v[k] == c@[k]@)),
        m.tool_calls is None ==> m@.tool_calls is None,
        m@.tool_call_id == opt_view(m.tool_call_id),
        m@.name == opt_view(m.name),
        message_views(l).len() == l.len(),
        0 <= i < l.len() ==> message_views(l)[i] == l[i]@,
{
}

/// An answer is its role, its reasoning, its content, its calls, its annotations
/// and its refusal.
pub proof fn law_answers_are_shown(m: ChatMessage, a: Annotation, k: int)
    ensures
        m@.role == m.role@,
        m@.reasoning_content == opt_view(m.reasoning_content),
        m@.reasoning == opt_view(m.reasoning),
        m@.content == opt_view(m.content),
        m.tool_calls matches Some(c) ==> (m@.tool_calls matches Some(v) && v.len() == c@.len() && (0
            <= k < c@.len() ==> v[k] == c@[k]@)),
        m.tool_calls is None ==> m@.tool_calls is None,
        m.annotations matches Some(c) ==> (m@.annotations matches Some(v) && v.len() == c@.len() && (
        0 <= k < c@.len() ==> v[k] == c@[k]@)),
        m.annotations is None ==> m@.annotations is None,
        m@.refusal == opt_view(m.refusal),
        a matches Annotation::UrlCitation { url_citation: c } ==> a@.start_index == c.start_index
            && a@.end_index == c.end_index && a@.url == c.url@ && a@.title == c.title@,
{
}

/// A delta is its role, its reasoning, its content, its calls and its refusal.
pub proof fn law_deltas_are_shown(d: ChunkDelta, k: int)
    ensures
        d@.role == opt_view(d.role),
        d@.reasoning_content == opt_view(d.reasoning_content),
        d@.reasoning == opt_view(d.reasoning),
        d@.content == opt_view(d.content),
        d@.refusal == opt_view(d.refusal),
        d.tool_calls matches Some(c) ==> (d@.tool_calls matches Some(v) && v.len() == c@.len() && (0
            <= k < c@.len() ==> v[k] == c@[k]@)),
        d.tool_calls is None ==> d@.tool_calls is None,
{
}

/// An event is its kind and what it holds.
pub proof fn law_events_are_shown(e: FsmEvent, r: StopReason)
    ensures
        e matches FsmEvent::ReasoningDelta(t) ==> e@ == EventView::ReasoningDelta(t@),
        e matches FsmEvent::ContentDelta(t) ==> e@ == EventView::ContentDelta(t@),
        e matches FsmEvent::ToolCallStart { id, name, idx } ==> e@ == (EventView::ToolCallStart {
            id: id@,
            name: name@,
            idx,
        }),
        e matches FsmEvent::ToolCallArgDelta { args, idx } ==> e@ == (EventView::ToolCallArgDelta {
            args: args@,
            idx,
        }),
        e matches FsmEvent::ToolCallEnd { idx } ==> e@ == (EventView::ToolCallEnd { idx }),
        e matches FsmEvent::Stopped { reason } ==> e@ == (EventView::Stopped { reason: reason@ }),
        r matches StopReason::Upstream(s) ==> r@ == StopView::Upstream(s@),
        r matches StopReason::StopString { matched } ==> r@ == StopView::StopString(matched@),
        r is GrammarTerminated ==> r@ == StopView::GrammarTerminated,
{
}

/// What a detector finds is its kind and what it holds.
pub proof fn law_outputs_are_shown(o: DetectorOutput)
    ensures
        o matches DetectorOutput::Content(t) ==> o@ == OutputView::Content(t@),
        o matches DetectorOutput::ToolCall(c, i) ==> o@ == OutputView::ToolCall(c@, i),
        o matches DetectorOutput::ToolCallStart { id, name, idx } ==> o@ == (
        OutputView::ToolCallStart { id: id@, name: name@, idx }),
        o matches DetectorOutput::ToolCallDelta { args, idx } ==> o@ == (
        OutputView::ToolCallDelta { args: args@, idx }),
        o matches DetectorOutput::ToolCallEnd { idx } ==> o@ == (OutputView::ToolCallEnd { idx }),
{
}

/// An item of a stream is its kind and what it holds; a count of tokens is every
/// number in it.
pub proof fn law_stream_items_are_shown<F>(w: Wire<F>, u: Usage<F>)
    ensures
        w matches Wire::Reasoning(t) ==> w@ == WireView::<F>::Reasoning(t@),
        w matches Wire::Content(t) ==> w@ == WireView::<F>::Content(t@),
        w matches Wire::CallStart { id, name, idx } ==> w@ == (WireView::<F>::CallStart {
            id: id@,
            name: name@,
            idx,
        }),
        w matches Wire::CallArgs { args, idx } ==> w@ == (WireView::<F>::CallArgs {
            args: args@,
            idx,
        }),
        w matches Wire::UsageOnly(x) ==> w@ == WireView::UsageOnly(x@),
        w matches Wire::FinalNoUsage(f) ==> w@ == WireView::<F>::FinalNoUsage(f@),
        w matches Wire::Done(f, x) ==> w@ == WireView::Done(f@, x@),
        u@.prompt_tokens == u.prompt_tokens,
        u@.completion_tokens == u.completion_tokens,
        u@.total_tokens == u.total_tokens,
        u@.prompt_tokens_details == u.prompt_tokens_details,
        u@.completion_tokens_details == u.completion_tokens_details,
        u@.time_to_first_token_ms == u.time_to_first_token_ms,
        u@.response_tokens_per_second == u.response_tokens_per_second,
        u@.request_id == u.request_id@,
{
}

/// An output item is its kind and what it holds, each text of it included.
pub proof fn law_output_items_are_shown(o: ResponsesOutputItem, k: int)
    ensures
        o matches ResponsesOutputItem::FunctionCall { id, call_id, name, arguments } ==> o@ == (
        ItemView::FunctionCall {
            id: id@,
            call_id: call_id@,
            name: name@,
            arguments: arguments@,
        }),
        o matches ResponsesOutputItem::Message { id, content } ==> (o@ matches ItemView::Message {
            id: i,
            texts,
        } && i == id@ && texts.len() == content@.len() && (0 <= k < content@.len()
            ==> texts[k].text == content@[k].text@)),
{
}

/// An entry of a prompt is its role, its content, its calls and its counts.
pub proof fn law_entries_are_shown(e: MsgEntry, k: int)
    ensures
        e@.role == e.role@,
        e@.content == e.content@,
        e@.image_count == e.image_count,
        e@.failures_in_a_row == e.failures_in_a_row,
        e.tool_calls matches Some(c) ==> (e@.tool_calls matches Some(v) && v.len() == c@.len() && (0
            <= k < c@.len() ==> v[k] == c@[k]@)),
        e.tool_calls is None ==> e@.tool_calls is None,
{
    if let Some(c) = e.tool_calls {
        lemma_json_views(c@);
        if 0 <= k < c@.len() {
            assert(c@[k] == c@[k]);
        }
    }
}

/// A query is what it asks for, and an error what it says.
pub proof fn law_queries_and_errors_are_shown(q: ListQuery, e: ApiError)
    ensures
        q@.order == opt_view(q.order),
        q@.limit == opt_view(q.limit),
        q@.after == opt_view(q.after),
        q@.before == opt_view(q.before),
        e@.status == e.status,
        e@.message == e.message@,
        e@.param == opt_view(e.param),
        e@.code == opt_view(e.code),
{
}

/// A JSON value is its kind and what it holds: of an array every value, of an
/// object every member, in order.
pub proof fn law_json_is_shown(j: Json, k: int)
    ensures
        j is Null ==> j@ == JsonView::Null,
        j matches Json::Bool(b) ==> j@ == JsonView::Bool(b),
        j matches Json::Number(n) ==> j@ == JsonView::Number(n@),
        j matches Json::Str(s) ==> j@ == JsonView::Str(s@),
        j matches Json::Array(a) ==> (j@ matches JsonView::Array(v) && v.len() == a@.len() && (0 <= k
            < a@.len() ==> v[k] == a@[k]@)),
        j matches Json::Object(o) ==> (j@ matches JsonView::Object(v) && v.len() == o@.len() && (0
            <= k < o@.len() ==> v[k] == (o@[k].0@, o@[k].1@))),
{
    match j {
        Json::Array(a) => {
            lemma_json_views(a@);
            if 0 <= k < a@.len() {
                assert(a@[k] == a@[k]);
            }
        },
        Json::Object(o) => {
            lemma_member_views(o@);
            if 0 <= k < o@.len() {
                assert(o@[k] == o@[k]);
            }
        },
        _ => {},
    }
}

/// A list is each of its values, in order.
pub proof fn law_lists_are_shown<F>(
    texts: Seq<String>,
    events: Seq<FsmEvent>,
    outputs: Seq<DetectorOutput>,
    items: Seq<Wire<F>>,
    entries: Seq<MsgEntry>,
    headers: Seq<(String, String)>,
    calls: Seq<ToolCall>,
    i: int,
)
    ensures
        views(texts).len() == texts.len(),
        0 <= i < texts.len() ==> views(texts)[i] == texts[i]@,
        event_views(events).len() == events.len(),
        0 <= i < events.len() ==> event_views(events)[i] == events[i]@,
        output_views(outputs).len() == outputs.len(),
        0 <= i < outputs.len() ==> output_views(outputs)[i] == outputs[i]@,
        wire_views(items).len() == items.len(),
        0 <= i < items.len() ==> wire_views(items)[i] == items[i]@,
        entry_views(entries).len() == entries.len(),
        0 <= i < entries.len() ==> entry_views(entries)[i] == entries[i]@,
        header_views(headers).len() == headers.len(),
        0 <= i < headers.len() ==> header_views(headers)[i] == (headers[i].0@, headers[i].1@),
        call_views(calls).len() == calls.len(),
        0 <= i < calls.len() ==> call_views(calls)[i] == calls[i]@,
{
}

/// An optional text handed over is the text, and an image its pixels and its
/// sizes.
pub proof fn law_borrowed_texts_and_images_are_shown<F>(s: &str, image: (Vec<F>, usize, usize))
    ensures
        opt_str(Some(s)) == Some(s@),
        opt_str(None) is None,
        image_view(image) == (image.0@, image.1, image.2),
{
}

/// What was noticed is shown whole.
pub proof fn law_notices_are_shown(
    m: F39PermanentFailureMatch,
    d: F49DuplicateWrite,
    f: F29EnvironmentFact,
    e: ToolSchemaError,
)
    ensures
        m@.key == (m.tool@, m.primary_arg@),
        m@.class == m.class,
        m@.count == m.prior_failure_count,
        d@ == (d.file_path@, d.prior_count),
        f@ == (f.binary@, f.observed_count),
        e@.tool_name == e.tool_name@,
        e@.path == e.path@,
        e@.reason == e.reason,
{
}

/// What may be missing is shown where it is there.
pub proof fn law_optional_values_are_shown(
    f: FoundCalls,
    j: Json,
    o: Vec<DetectorOutput>,
    a: Vec<Annotation>,
    r: &StopReason,
    v: Vec<Json>,
)
    ensures
        found_view(Some(f)) == Some((opt_view(f.content), call_views(f.valid@))),
        found_view(None) is None,
        opt_json(Some(j)) == Some(j@),
        opt_json(None) is None,
        opt_output_views(Some(o)) == Some(output_views(o@)),
        opt_output_views(None) is None,
        opt_annotations(Some(a)) matches Some(l) && l.len() == a@.len(),
        opt_annotations(None) is None,
        stop_view(Some(r)) == Some(r@),
        stop_view(None) is None,
        opt_json_views(Some(v)) == Some(json_views(v@)),
        opt_json_views(None) is None,
{
}

} // verus!

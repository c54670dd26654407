//! What goes over the wire while a completion is streamed.
use vstd::prelude::*;
use crate::openai::chat_response::{
    ChatCompletionChunk, CompletionTokensDetails, PromptTokensDetails, Usage,
};
use crate::openai::chat_response::{empty_delta, ChunkCallView, DeltaView};
use crate::text::own;
use crate::tools::{FunctionCall, ToolCall};

verus! {

/// What a [`Usage`] says.
pub struct UsageView<F> {
    pub prompt_tokens: usize,
    pub completion_tokens: usize,
    pub total_tokens: usize,
    pub prompt_tokens_details: Option<PromptTokensDetails>,
    pub completion_tokens_details: Option<CompletionTokensDetails>,
    pub time_to_first_token_ms: F,
    pub response_tokens_per_second: F,
    pub request_id: Seq<char>,
}

impl<F> View for Usage<F> {
    type V = UsageView<F>;

    open spec fn view(&self) -> UsageView<F> {
        UsageView {
            prompt_tokens: self.prompt_tokens,
            completion_tokens: self.completion_tokens,
            total_tokens: self.total_tokens,
            prompt_tokens_details: self.prompt_tokens_details,
            completion_tokens_details: self.completion_tokens_details,
            time_to_first_token_ms: self.time_to_first_token_ms,
            response_tokens_per_second: self.response_tokens_per_second,
            request_id: self.request_id@,
        }
    }
}

impl<F: Copy> Usage<F> {
    /// A copy.
    pub fn copy(&self) -> (r: Usage<F>)
        ensures
            r@ == self@,
    {
        Usage {
            prompt_tokens: self.prompt_tokens,
            completion_tokens: self.completion_tokens,
            total_tokens: self.total_tokens,
            prompt_tokens_details: self.prompt_tokens_details,
            completion_tokens_details: self.completion_tokens_details,
            time_to_first_token_ms: self.time_to_first_token_ms,
            response_tokens_per_second: self.response_tokens_per_second,
            request_id: self.request_id.clone(),
        }
    }
}

/// One item of a stream.
#[derive(Debug)]
pub enum Wire<F> {
    /// Some reasoning.
    Reasoning(String),
    /// Some content.
    Content(String),
    /// A call begins.
    CallStart { id: String, name: String, idx: usize },
    /// Some arguments of a call.
    CallArgs { args: String, idx: usize },
    /// The usage, without a choice.
    UsageOnly(Usage<F>),
    /// The end, without the usage.
    FinalNoUsage(String),
    /// The end, with the usage.
    Done(String, Usage<F>),
}

/// What a [`Wire`] says.
pub enum WireView<F> {
    Reasoning(Seq<char>),
    Content(Seq<char>),
    CallStart { id: Seq<char>, name: Seq<char>, idx: usize },
    CallArgs { args: Seq<char>, idx: usize },
    UsageOnly(UsageView<F>),
    FinalNoUsage(Seq<char>),
    Done(Seq<char>, UsageView<F>),
}

impl<F> View for Wire<F> {
    type V = WireView<F>;

    open spec fn view(&self) -> WireView<F> {
        match *self {
            Wire::Reasoning(t) => WireView::Reasoning(t@),
            Wire::Content(t) => WireView::Content(t@),
            Wire::CallStart { id, name, idx } => WireView::CallStart { id: id@, name: name@, idx },
            Wire::CallArgs { args, idx } => WireView::CallArgs { args: args@, idx },
            Wire::UsageOnly(u) => WireView::UsageOnly(u@),
            Wire::FinalNoUsage(f) => WireView::FinalNoUsage(f@),
            Wire::Done(f, u) => WireView::Done(f@, u@),
        }
    }
}

/// What a sequence of items says.
pub open spec fn wire_views<F>(s: Seq<Wire<F>>) -> Seq<WireView<F>> {
    s.map_values(|w: Wire<F>| w@)
}

/// Pushing an item pushes its view.
pub broadcast proof fn lemma_wire_views_push<F>(s: Seq<Wire<F>>, w: Wire<F>)
    ensures
        #[trigger] wire_views(s.push(w)) == wire_views(s).push(w@),
{
    assert(wire_views(s.push(w)) =~= wire_views(s).push(w@));
}

/// The chunk delta of a call's beginning.
pub open spec fn start_delta(id: Seq<char>, name: Seq<char>, idx: usize) -> DeltaView {
    DeltaView {
        role: Some("assistant"@),
        tool_calls: Some(
            seq![
                ChunkCallView {
                    index: idx,
                    id: Some(id),
                    call_type: Some("function"@),
                    name: Some(name),
                    arguments: Seq::empty(),
                },
            ],
        ),
        ..empty_delta()
    }
}

/// The chunk delta of some arguments.
pub open spec fn args_delta(args: Seq<char>, idx: usize) -> DeltaView {
    DeltaView {
        tool_calls: Some(
            seq![
                ChunkCallView {
                    index: idx,
                    id: None,
                    call_type: None,
                    name: None,
                    arguments: args,
                },
            ],
        ),
        ..empty_delta()
    }
}

/// Whether a chunk carries an item.
pub open spec fn carries<F, L>(
    c: ChatCompletionChunk<F, L>,
    w: WireView<F>,
    model: Seq<char>,
    id: Seq<char>,
    created: u64,
) -> bool {
    match w {
        WireView::Reasoning(t) => c.usage is None && c.is_delta(
            model,
            id,
            created,
            (DeltaView { reasoning_content: Some(t), reasoning: Some(t), ..empty_delta() }),
            None,
        ),
        WireView::Content(t) => c.usage is None && c.is_delta(
            model,
            id,
            created,
            (DeltaView { content: Some(t), ..empty_delta() }),
            None,
        ),
        WireView::CallStart { id: call, name, idx } => c.usage is None && c.is_delta(
            model,
            id,
            created,
            start_delta(call, name, idx),
            None,
        ),
        WireView::CallArgs { args, idx } => c.usage is None && c.is_delta(
            model,
            id,
            created,
            args_delta(args, idx),
            None,
        ),
        WireView::UsageOnly(u) => {
            &&& c.is_chunk(model, id, created)
            &&& c.choices@.len() == 0
            &&& c.usage matches Some(x) && x@ == u
        },
        WireView::FinalNoUsage(f) => c.usage is None && c.is_delta(
            model,
            id,
            created,
            empty_delta(),
            Some(f),
        ),
        WireView::Done(f, u) => {
            &&& c.is_delta(model, id, created, empty_delta(), Some(f))
            &&& c.usage matches Some(x) && x@ == u
        },
    }
}

impl<F> Wire<F> {
    /// The chunk that carries this item.
    pub fn into_chunk<L>(self, model: &str, id: &str, created: u64) -> (r: ChatCompletionChunk<
        F,
        L,
    >)
        ensures
            carries(r, self@, model@, id@, created),
    {
        match self {
            Wire::Reasoning(t) => ChatCompletionChunk::reasoning_chunk(model, id, created, t),
            Wire::Content(t) => ChatCompletionChunk::content_chunk(model, id, created, t),
            Wire::CallStart { id: call_id, name, idx } => {
                let call = ToolCall {
                    id: call_id,
                    call_type: own("function"),
                    function: FunctionCall { name, arguments: String::new() },
                };
                ChatCompletionChunk::tool_call_start_chunk(model, id, created, &call, idx)
            },
            Wire::CallArgs { args, idx } => ChatCompletionChunk::tool_call_args_fragment(
                model,
                id,
                created,
                idx,
                args.as_str(),
            ),
            Wire::UsageOnly(u) => ChatCompletionChunk::usage_only_chunk(model, id, created, u),
            Wire::FinalNoUsage(f) => ChatCompletionChunk::final_chunk_no_usage(
                model,
                id,
                created,
                f.as_str(),
            ),
            Wire::Done(f, u) => ChatCompletionChunk::done_chunk(
                model,
                id,
                created,
                f.as_str(),
                u,
            ),
        }
    }
}

/// The items that end a stream: the usage and the end apart, or the end with
/// the usage.
pub open spec fn end_items<F>(
    include_usage: bool,
    finish: Seq<char>,
    usage: UsageView<F>,
) -> Seq<WireView<F>> {
    if include_usage {
        seq![WireView::UsageOnly(usage), WireView::FinalNoUsage(finish)]
    } else {
        seq![WireView::Done(finish, usage)]
    }
}

/// Pushes the items that end a stream.
pub fn push_end<F>(out: &mut Vec<Wire<F>>, include_usage: bool, finish: String, usage: Usage<F>)
    ensures
        wire_views(final(out)@) == wire_views(old(out)@) + end_items(
            include_usage,
            finish@,
            usage@,
        ),
{
    broadcast use lemma_wire_views_push;

    if include_usage {
        out.push(Wire::UsageOnly(usage));
        out.push(Wire::FinalNoUsage(finish));
    } else {
        out.push(Wire::Done(finish, usage));
    }
    assert(wire_views(out@) =~= wire_views(old(out)@) + end_items(
        include_usage,
        finish@,
        usage@,
    ));
}

/// The tokens to give back of those reserved for a request.
pub open spec fn refund_due(reserved: u64, used: int) -> u64 {
    if reserved > used {
        (reserved - used) as u64
    } else {
        0
    }
}

/// Computes [`refund_due`].
pub fn refund(reserved: u64, prompt_tokens: usize, completion_tokens: usize) -> (r: u64)
    requires
        prompt_tokens + completion_tokens <= usize::MAX,
    ensures
        r == refund_due(reserved, prompt_tokens + completion_tokens),
{
    let used: u64 = (prompt_tokens + completion_tokens) as u64;
    if reserved > used {
        reserved - used
    } else {
        0
    }
}

/// The first 120 characters of the arguments, and a mark where there are more.
pub open spec fn call_log(name: Seq<char>, args: Seq<char>) -> Seq<char> {
    "Tool call: "@ + name + "("@ + (if args.len() > 120 {
        args.take(120) + "…"@
    } else {
        args + ""@
    }) + ")"@
}

/// The line that is logged for a call.
pub fn log_tool_call(name: &str, args_json: &str) -> (r: String)
    ensures
        r@ == call_log(name@, args_json@),
{
    let chars = crate::text::chars_of(args_json);
    let mut s = "Tool call: ".to_owned();
    s.append(name);
    s.append("(");
    let mut shown = String::new();
    if chars.len() > 120 {
        shown.append(crate::text::string_of(&chars, 0, 120).as_str());
        shown.append("…");
        assert(args_json@.subrange(0, 120) =~= args_json@.take(120));
        assert(shown@ =~= args_json@.take(120) + "…"@);
    } else {
        shown.append(args_json);
        shown.append("");
        assert(shown@ =~= args_json@ + ""@);
    }
    s.append(shown.as_str());
    s.append(")");
    s
}

} // verus!

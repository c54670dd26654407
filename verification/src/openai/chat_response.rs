//! Responses and streamed chunks.
use vstd::prelude::*;
use crate::openai::types::{Annotation, ChatChoice, ChatMessage};
use crate::openai::types::{opt_annotations, ChatMessageView, CitationView};
use crate::tools::{ChunkFunction, ChunkToolCall, ToolCall};
use crate::tools::{call_views, opt_view};

verus! {

/// Where the tokens of a prompt came from.
#[derive(Debug, Clone, Copy, PartialEq, Eq, Structural)]
pub struct PromptTokensDetails {
    /// Tokens served by the prefix cache.
    pub cached_tokens: usize,
    /// Audio tokens; always 0.
    pub audio_tokens: usize,
}

/// Where the tokens of a completion went.
#[derive(Debug, Clone, Copy, PartialEq, Eq, Structural)]
pub struct CompletionTokensDetails {
    /// Tokens of the reasoning.
    pub reasoning_tokens: usize,
    /// Audio tokens; always 0.
    pub audio_tokens: usize,
    /// Predicted tokens that were accepted.
    pub accepted_prediction_tokens: usize,
    /// Predicted tokens that were rejected.
    pub rejected_prediction_tokens: usize,
}

/// Token counts and timing. `F` is the type of the timings.
#[derive(Debug, Clone)]
pub struct Usage<F> {
    pub prompt_tokens: usize,
    pub completion_tokens: usize,
    pub total_tokens: usize,
    pub prompt_tokens_details: Option<PromptTokensDetails>,
    pub completion_tokens_details: Option<CompletionTokensDetails>,
    pub time_to_first_token_ms: F,
    pub response_tokens_per_second: F,
    pub request_id: String,
}

/// A chat completion. `F` is the type of the timings, `L` that of the
/// log-probabilities.
#[derive(Debug)]
pub struct ChatCompletionResponse<F, L> {
    pub id: String,
    pub object: String,
    pub created: u64,
    pub model: String,
    pub system_fingerprint: Option<String>,
    pub choices: Vec<ChatChoice<L>>,
    pub usage: Usage<F>,
    pub service_tier: Option<String>,
    pub metadata: Option<Vec<(String, String)>>,
}

/// A list of models.
#[derive(Debug)]
pub struct ModelListResponse {
    pub object: String,
    pub data: Vec<ModelInfo>,
}

/// A model.
#[derive(Debug)]
pub struct ModelInfo {
    pub id: String,
    pub object: String,
    pub created: u64,
    pub owned_by: String,
}

/// The message of a plain answer.
pub open spec fn answer_message(
    content: Option<Seq<char>>,
    annotations: Option<Seq<CitationView>>,
    calls: Option<Seq<ToolCall>>,
) -> ChatMessageView {
    ChatMessageView {
        role: "assistant"@,
        reasoning_content: None,
        reasoning: None,
        content,
        tool_calls: match calls {
            Some(c) => Some(call_views(c)),
            None => None,
        },
        annotations,
        refusal: None,
    }
}

impl<F, L> ChatCompletionResponse<F, L> {
    /// The fields that every completion has alike.
    pub open spec fn is_completion(self, id: Seq<char>, created: u64, model: Seq<char>) -> bool {
        &&& self.id@ == id
        &&& self.object@ == "chat.completion"@
        &&& self.created == created
        &&& self.model@ == model
        &&& opt_view(self.system_fingerprint) == Some("fp_atlas"@)
    }

    /// A completion of one choice with plain content. The id, the time and
    /// the annotations of the content are the caller's.
    pub fn new(
        id: String,
        created: u64,
        model: &str,
        content: String,
        annotations: Option<Vec<Annotation>>,
        usage: Usage<F>,
        finish_reason: &str,
    ) -> (r: ChatCompletionResponse<F, L>)
        ensures
            r.is_completion(id@, created, model@),
            r.usage == usage,
            r.service_tier is None,
            r.metadata is None,
            r.choices@.len() == 1,
            r.choices@[0].index == 0,
            r.choices@[0].message@ == answer_message(
                Some(content@),
                opt_annotations(annotations),
                None,
            ),
            r.choices@[0].finish_reason@ == finish_reason@,
            r.choices@[0].logprobs is None,
    {
        let message = ChatMessage {
            role: "assistant".to_owned(),
            reasoning_content: None,
            reasoning: None,
            content: Some(content),
            tool_calls: None,
            annotations,
            refusal: None,
        };
        let choice = ChatChoice {
            index: 0,
            message,
            finish_reason: finish_reason.to_owned(),
            logprobs: None,
        };
        assemble_chat_response(id, model.to_owned(), created, vec![choice], usage, None, None)
    }

    /// A completion of one choice that calls tools.
    pub fn with_tool_calls(
        id: String,
        created: u64,
        model: &str,
        content: Option<String>,
        annotations: Option<Vec<Annotation>>,
        tool_calls: Vec<ToolCall>,
        usage: Usage<F>,
    ) -> (r: ChatCompletionResponse<F, L>)
        ensures
            r.is_completion(id@, created, model@),
            r.usage == usage,
            r.service_tier is None,
            r.metadata is None,
            r.choices@.len() == 1,
            r.choices@[0].index == 0,
            r.choices@[0].message@ == answer_message(
                opt_view(content),
                opt_annotations(annotations),
                Some(tool_calls@),
            ),
            r.choices@[0].finish_reason@ == "tool_calls"@,
            r.choices@[0].logprobs is None,
    {
        let message = ChatMessage {
            role: "assistant".to_owned(),
            reasoning_content: None,
            reasoning: None,
            content,
            tool_calls: Some(tool_calls),
            annotations,
            refusal: None,
        };
        let choice = ChatChoice {
            index: 0,
            message,
            finish_reason: "tool_calls".to_owned(),
            logprobs: None,
        };
        assemble_chat_response(id, model.to_owned(), created, vec![choice], usage, None, None)
    }
}

/// The one constructor of a completion: the streaming path's record and the
/// blocking path's body are both made by it.
pub fn assemble_chat_response<F, L>(
    id: String,
    model: String,
    created: u64,
    choices: Vec<ChatChoice<L>>,
    usage: Usage<F>,
    service_tier: Option<String>,
    metadata: Option<Vec<(String, String)>>,
) -> (r: ChatCompletionResponse<F, L>)
    ensures
        r.is_completion(id@, created, model@),
        r.choices == choices,
        r.usage == usage,
        r.service_tier == service_tier,
        r.metadata == metadata,
{
    ChatCompletionResponse {
        id,
        object: "chat.completion".to_owned(),
        created,
        model,
        system_fingerprint: Some("fp_atlas".to_owned()),
        choices,
        usage,
        service_tier,
        metadata,
    }
}

/// The counts of a completion with its timings.
pub fn build_usage<F>(
    prompt_tokens: usize,
    completion_tokens: usize,
    time_to_first_token_ms: F,
    response_tokens_per_second: F,
    reasoning_tokens: u32,
    cached_prompt_tokens: u32,
    accepted_prediction_tokens: u32,
    rejected_prediction_tokens: u32,
    request_id: String,
) -> (r: Usage<F>)
    requires
        prompt_tokens + completion_tokens <= usize::MAX,
    ensures
        r.prompt_tokens == prompt_tokens,
        r.completion_tokens == completion_tokens,
        r.total_tokens == prompt_tokens + completion_tokens,
        r.prompt_tokens_details == Some(
            PromptTokensDetails { cached_tokens: cached_prompt_tokens as usize, audio_tokens: 0 },
        ),
        r.completion_tokens_details == Some(
            CompletionTokensDetails {
                reasoning_tokens: reasoning_tokens as usize,
                audio_tokens: 0,
                accepted_prediction_tokens: accepted_prediction_tokens as usize,
                rejected_prediction_tokens: rejected_prediction_tokens as usize,
            },
        ),
        r.time_to_first_token_ms == time_to_first_token_ms,
        r.response_tokens_per_second == response_tokens_per_second,
        r.request_id@ == request_id@,
{
    Usage {
        prompt_tokens,
        completion_tokens,
        total_tokens: prompt_tokens + completion_tokens,
        prompt_tokens_details: Some(
            PromptTokensDetails { cached_tokens: cached_prompt_tokens as usize, audio_tokens: 0 },
        ),
        completion_tokens_details: Some(
            CompletionTokensDetails {
                reasoning_tokens: reasoning_tokens as usize,
                audio_tokens: 0,
                accepted_prediction_tokens: accepted_prediction_tokens as usize,
                rejected_prediction_tokens: rejected_prediction_tokens as usize,
            },
        ),
        time_to_first_token_ms,
        response_tokens_per_second,
        request_id,
    }
}

/// What a streamed chunk adds to the message.
#[derive(Debug, Clone, PartialEq, Eq)]
pub struct ChunkDelta {
    pub role: Option<String>,
    pub reasoning_content: Option<String>,
    pub reasoning: Option<String>,
    pub content: Option<String>,
    pub tool_calls: Option<Vec<ChunkToolCall>>,
    pub refusal: Option<String>,
}

/// One choice of a streamed chunk.
#[derive(Debug)]
pub struct ChunkChoice<L> {
    pub index: usize,
    pub delta: ChunkDelta,
    pub finish_reason: Option<String>,
    pub logprobs: Option<L>,
    pub token_ids: Vec<u32>,
}

/// A streamed chunk.
#[derive(Debug)]
pub struct ChatCompletionChunk<F, L> {
    pub id: String,
    pub object: String,
    pub created: u64,
    pub model: String,
    pub system_fingerprint: Option<String>,
    pub choices: Vec<ChunkChoice<L>>,
    pub usage: Option<Usage<F>>,
}

/// What a streamed tool call delta says.
pub struct ChunkCallView {
    pub index: usize,
    pub id: Option<Seq<char>>,
    pub call_type: Option<Seq<char>>,
    pub name: Option<Seq<char>>,
    pub arguments: Seq<char>,
}

impl View for ChunkToolCall {
    type V = ChunkCallView;

    open spec fn view(&self) -> ChunkCallView {
        ChunkCallView {
            index: self.index,
            id: opt_view(self.id),
            call_type: opt_view(self.call_type),
            name: opt_view(self.function.name),
            arguments: self.function.arguments@,
        }
    }
}

/// What a [`ChunkDelta`] says.
pub struct DeltaView {
    pub role: Option<Seq<char>>,
    pub reasoning_content: Option<Seq<char>>,
    pub reasoning: Option<Seq<char>>,
    pub content: Option<Seq<char>>,
    pub tool_calls: Option<Seq<ChunkCallView>>,
    pub refusal: Option<Seq<char>>,
}

impl View for ChunkDelta {
    type V = DeltaView;

    open spec fn view(&self) -> DeltaView {
        DeltaView {
            role: opt_view(self.role),
            reasoning_content: opt_view(self.reasoning_content),
            reasoning: opt_view(self.reasoning),
            content: opt_view(self.content),
            tool_calls: match self.tool_calls {
                Some(c) => Some(c@.map_values(|x: ChunkToolCall| x@)),
                None => None,
            },
            refusal: opt_view(self.refusal),
        }
    }
}

/// A delta that adds nothing.
pub open spec fn empty_delta() -> DeltaView {
    DeltaView {
        role: None,
        reasoning_content: None,
        reasoning: None,
        content: None,
        tool_calls: None,
        refusal: None,
    }
}

impl ChunkDelta {
    /// A delta that adds nothing.
    pub fn empty() -> (r: ChunkDelta)
        ensures
            r@ == empty_delta(),
    {
        ChunkDelta {
            role: None,
            reasoning_content: None,
            reasoning: None,
            content: None,
            tool_calls: None,
            refusal: None,
        }
    }
}

impl<F, L> ChatCompletionChunk<F, L> {
    /// The fields that every chunk has alike.
    pub open spec fn is_chunk(self, model: Seq<char>, id: Seq<char>, created: u64) -> bool {
        &&& self.id@ == id
        &&& self.object@ == "chat.completion.chunk"@
        &&& self.created == created
        &&& self.model@ == model
        &&& opt_view(self.system_fingerprint) == Some("fp_atlas"@)
    }

    /// A chunk of one choice, with this delta and finish reason.
    pub open spec fn is_delta(
        self,
        model: Seq<char>,
        id: Seq<char>,
        created: u64,
        delta: DeltaView,
        finish: Option<Seq<char>>,
    ) -> bool {
        &&& self.is_chunk(model, id, created)
        &&& self.choices@.len() == 1
        &&& self.choices@[0].index == 0
        &&& self.choices@[0].delta@ == delta
        &&& opt_view(self.choices@[0].finish_reason) == finish
        &&& self.choices@[0].logprobs is None
        &&& self.choices@[0].token_ids@ == Seq::<u32>::empty()
    }

    fn with_delta(
        model: &str,
        id: &str,
        created: u64,
        delta: ChunkDelta,
        finish_reason: Option<String>,
        usage: Option<Usage<F>>,
    ) -> (r: ChatCompletionChunk<F, L>)
        ensures
            r.is_delta(model@, id@, created, delta@, opt_view(finish_reason)),
            r.usage == usage,
    {
        let choice = ChunkChoice {
            index: 0,
            delta,
            finish_reason,
            logprobs: None,
            token_ids: Vec::new(),
        };
        ChatCompletionChunk {
            id: id.to_owned(),
            object: "chat.completion.chunk".to_owned(),
            created,
            model: model.to_owned(),
            system_fingerprint: Some("fp_atlas".to_owned()),
            choices: vec![choice],
            usage,
        }
    }

    /// The first chunk, with the assistant role.
    pub fn role_chunk(model: &str, id: &str, created: u64) -> (r: ChatCompletionChunk<F, L>)
        ensures
            r.is_delta(
                model@,
                id@,
                created,
                (DeltaView { role: Some("assistant"@), ..empty_delta() }),
                None,
            ),
            r.usage is None,
    {
        let delta = ChunkDelta { role: Some("assistant".to_owned()), ..ChunkDelta::empty() };
        Self::with_delta(model, id, created, delta, None, None)
    }

    /// A reasoning delta, under both names that clients read.
    pub fn reasoning_chunk(model: &str, id: &str, created: u64, text: String) -> (r:
        ChatCompletionChunk<F, L>)
        ensures
            r.is_delta(
                model@,
                id@,
                created,
                (DeltaView {
                    reasoning_content: Some(text@),
                    reasoning: Some(text@),
                    ..empty_delta()
                }),
                None,
            ),
            r.usage is None,
    {
        let delta = ChunkDelta {
            reasoning_content: Some(text.clone()),
            reasoning: Some(text),
            ..ChunkDelta::empty()
        };
        Self::with_delta(model, id, created, delta, None, None)
    }

    /// A content delta.
    pub fn content_chunk(model: &str, id: &str, created: u64, text: String) -> (r:
        ChatCompletionChunk<F, L>)
        ensures
            r.is_delta(
                model@,
                id@,
                created,
                (DeltaView { content: Some(text@), ..empty_delta() }),
                None,
            ),
            r.usage is None,
    {
        let delta = ChunkDelta { content: Some(text), ..ChunkDelta::empty() };
        Self::with_delta(model, id, created, delta, None, None)
    }

    /// The start of a tool call: its id, type and name, with no arguments.
    pub fn tool_call_start_chunk(
        model: &str,
        id: &str,
        created: u64,
        tc: &ToolCall,
        tc_index: usize,
    ) -> (r: ChatCompletionChunk<F, L>)
        ensures
            r.is_delta(
                model@,
                id@,
                created,
                (DeltaView {
                    role: Some("assistant"@),
                    tool_calls: Some(
                        seq![
                            ChunkCallView {
                                index: tc_index,
                                id: Some(tc.id@),
                                call_type: Some(tc.call_type@),
                                name: Some(tc.function.name@),
                                arguments: Seq::empty(),
                            },
                        ],
                    ),
                    ..empty_delta()
                }),
                None,
            ),
            r.usage is None,
    {
        let call = ChunkToolCall {
            index: tc_index,
            id: Some(tc.id.clone()),
            call_type: Some(tc.call_type.clone()),
            function: ChunkFunction {
                name: Some(tc.function.name.clone()),
                arguments: String::new(),
            },
        };
        let delta = ChunkDelta {
            role: Some("assistant".to_owned()),
            tool_calls: Some(vec![call]),
            ..ChunkDelta::empty()
        };
        assert(delta@.tool_calls->0 =~= seq![call@]);
        Self::with_delta(model, id, created, delta, None, None)
    }

    /// A piece of a tool call's arguments.
    pub fn tool_call_args_fragment(
        model: &str,
        id: &str,
        created: u64,
        tc_index: usize,
        fragment: &str,
    ) -> (r: ChatCompletionChunk<F, L>)
        ensures
            r.is_delta(
                model@,
                id@,
                created,
                (DeltaView {
                    tool_calls: Some(
                        seq![
                            ChunkCallView {
                                index: tc_index,
                                id: None,
                                call_type: None,
                                name: None,
                                arguments: fragment@,
                            },
                        ],
                    ),
                    ..empty_delta()
                }),
                None,
            ),
            r.usage is None,
    {
        let call = ChunkToolCall {
            index: tc_index,
            id: None,
            call_type: None,
            function: ChunkFunction { name: None, arguments: fragment.to_owned() },
        };
        let delta = ChunkDelta { tool_calls: Some(vec![call]), ..ChunkDelta::empty() };
        assert(delta@.tool_calls->0 =~= seq![call@]);
        Self::with_delta(model, id, created, delta, None, None)
    }

    /// The last chunk, with the finish reason and the usage.
    pub fn done_chunk(
        model: &str,
        id: &str,
        created: u64,
        finish_reason: &str,
        usage: Usage<F>,
    ) -> (r: ChatCompletionChunk<F, L>)
        ensures
            r.is_delta(model@, id@, created, empty_delta(), Some(finish_reason@)),
            r.usage == Some(usage),
    {
        Self::with_delta(
            model,
            id,
            created,
            ChunkDelta::empty(),
            Some(finish_reason.to_owned()),
            Some(usage),
        )
    }

    /// A chunk without choices that carries the usage.
    pub fn usage_only_chunk(model: &str, id: &str, created: u64, usage: Usage<F>) -> (r:
        ChatCompletionChunk<F, L>)
        ensures
            r.is_chunk(model@, id@, created),
            r.choices@.len() == 0,
            r.usage == Some(usage),
    {
        ChatCompletionChunk {
            id: id.to_owned(),
            object: "chat.completion.chunk".to_owned(),
            created,
            model: model.to_owned(),
            system_fingerprint: Some("fp_atlas".to_owned()),
            choices: Vec::new(),
            usage: Some(usage),
        }
    }

    /// A refusal delta.
    pub fn refusal_chunk(model: &str, id: &str, created: u64, refusal: String) -> (r:
        ChatCompletionChunk<F, L>)
        ensures
            r.is_delta(
                model@,
                id@,
                created,
                (DeltaView { refusal: Some(refusal@), ..empty_delta() }),
                None,
            ),
            r.usage is None,
    {
        let delta = ChunkDelta { refusal: Some(refusal), ..ChunkDelta::empty() };
        Self::with_delta(model, id, created, delta, None, None)
    }

    /// The chunk with the sampled token ids on its first choice; unchanged
    /// where there are none or no choice.
    pub fn with_token_ids(self, ids: Vec<u32>) -> (r: ChatCompletionChunk<F, L>)
        ensures
            ids@.len() == 0 || self.choices@.len() == 0 ==> r == self,
            ids@.len() > 0 && self.choices@.len() > 0 ==> {
                &&& r.choices@.len() == self.choices@.len()
                &&& r.choices@[0].token_ids == ids
                &&& r.choices@[0].index == self.choices@[0].index
                &&& r.choices@[0].delta == self.choices@[0].delta
                &&& r.choices@[0].finish_reason == self.choices@[0].finish_reason
                &&& r.choices@[0].logprobs == self.choices@[0].logprobs
                &&& forall|i: int|
                    1 <= i < self.choices@.len() ==> r.choices@[i] == #[trigger] self.choices@[i]
                &&& r.id == self.id && r.object == self.object && r.created == self.created
                    && r.model == self.model && r.system_fingerprint == self.system_fingerprint
                    && r.usage == self.usage
            },
    {
        let mut chunk = self;
        if ids.len() > 0 && chunk.choices.len() > 0 {
            let mut choices = chunk.choices;
            let mut first = choices.remove(0);
            first.token_ids = ids;
            choices.insert(0, first);
            chunk.choices = choices;
        }
        chunk
    }

    /// The last chunk, with the finish reason and no usage.
    pub fn final_chunk_no_usage(model: &str, id: &str, created: u64, finish_reason: &str) -> (r:
        ChatCompletionChunk<F, L>)
        ensures
            r.is_delta(model@, id@, created, empty_delta(), Some(finish_reason@)),
            r.usage is None,
    {
        Self::with_delta(
            model,
            id,
            created,
            ChunkDelta::empty(),
            Some(finish_reason.to_owned()),
            None,
        )
    }
}

/// An answer carries what it is made of: its content, its annotations and each
/// of its calls.
pub proof fn law_answers_carry_what_they_are_made_of(
    content: Option<Seq<char>>,
    annotations: Option<Seq<CitationView>>,
    calls: Seq<ToolCall>,
    i: int,
)
    ensures
        ({
            let m = answer_message(content, annotations, Some(calls));
            &&& m.role == "assistant"@
            &&& m.content == content
            &&& m.annotations == annotations
            &&& m.refusal is None && m.reasoning is None && m.reasoning_content is None
            &&& m.tool_calls matches Some(v) && v.len() == calls.len() && (0 <= i < v.len() ==> v[i]
                == calls[i]@)
        }),
        answer_message(content, annotations, None).tool_calls is None,
        answer_message(content, annotations, None).content == content,
{
}

/// A completion bears its identifier, its time and its model.
pub proof fn law_completions_are_named<F, L>(
    r: ChatCompletionResponse<F, L>,
    id: Seq<char>,
    created: u64,
    model: Seq<char>,
)
    requires
        r.is_completion(id, created, model),
    ensures
        r.id@ == id,
        r.created == created,
        r.model@ == model,
        r.object@ == "chat.completion"@,
{
}

} // verus!

//! One chat turn, from the request to the job that is handed to the scheduler.
//!
//! A turn goes through four states, and what only the server around it can
//! make is handed in on the way: [`ChatTurn`] is let in, takes the prompt on
//! tools and is laid out; [`LaidOut`] goes into the chat template;
//! [`Prompted`] knows its tokens and becomes a [`Job`].
use vstd::prelude::*;
use crate::api_error::ApiError;
use crate::api_error::{plain_error, ErrorView, BAD_REQUEST};
use crate::chat::entries::{build_msg_entries, EntryContext, MsgEntry};
use crate::chat::entries::{all_images, cwd_of, entries, entry_views, with_cwd, EntryView};
use crate::chat::masking::apply_mask;
use crate::chat::masking::{replacements, with_mask};
use crate::chat::sampling::{
    build_sampling, choose_numbers, SamplingContext, SamplingNumbers, SamplingPresets,
    SamplingSetup,
};
use crate::chat::sampling::{numbers_of, penalty_error, settles, GrammarSpec};
use crate::chat::template::{json_messages, template_thinking};
use crate::chat::template::{entry_json, opens_thinking};
use crate::chat::thinking::{cap_budget, fall_back, resolve_thinking, ThinkingPolicy};
use crate::chat::thinking::{prompted_thinking, thinking_for, with_fallback};
use crate::chat::validate::{
    check_prompt_length, check_stream_choices, inject_tool_prompt, tokenization_failed,
    tools_active, validate_input,
};
use crate::chat::validate::{input_error, tools_in_use, with_tool_prompt};
use crate::decimal::dec;
use crate::grammar::schema::{describe_errors, validate_tools_for_grammar};
use crate::grammar::schema::{errors_text, tool_errors};
use crate::inference::{copy_tools, Job};
use crate::inference::{tool_views, ToolView};
use crate::json::Json;
use crate::json::json_views;
use crate::messages::message_views;
use crate::openai::chat_request::{ChatCompletionRequest, ChatTemplateKwargs};
use crate::text::{contains, occurs_at, views};
use crate::tools::ToolDefinition;
use crate::tools::opt_view;

verus! {

/// How a server answers chat requests.
#[derive(Debug, Clone, Copy)]
pub struct TurnPolicy {
    /// The model's format of tool calls is known.
    pub has_parser: bool,
    /// The model's template knows thinking.
    pub supports_thinking: bool,
    pub thinking: ThinkingPolicy,
    /// The most tokens of a prompt and its answer.
    pub max_seq_len: usize,
    /// The token that opens a thinking block.
    pub think_start: Option<u32>,
    /// The token that closes one.
    pub think_end: Option<u32>,
    /// What the operator says of thinking where the client says nothing.
    pub fallback: Option<ChatTemplateKwargs>,
}

/// A request that was let in.
#[derive(Debug)]
pub struct ChatTurn<F> {
    pub req: ChatCompletionRequest<F>,
    /// Tool calls are looked for in the answer.
    pub tools_active: bool,
}

/// A turn whose messages are laid out for the chat template.
#[derive(Debug)]
pub struct LaidOut<F> {
    pub req: ChatCompletionRequest<F>,
    pub tools_active: bool,
    pub entries: Vec<MsgEntry>,
    /// The images of the messages, in order.
    pub images: Vec<String>,
    /// The working directory that the system message names.
    pub cwd_hint: Option<String>,
    pub enable_thinking: bool,
    pub thinking_budget: Option<u32>,
}

/// A turn whose prompt is known.
#[derive(Debug)]
pub struct Prompted<F> {
    pub req: ChatCompletionRequest<F>,
    pub tools_active: bool,
    pub cwd_hint: Option<String>,
    pub tokens: Vec<u32>,
    pub enable_thinking: bool,
    pub thinking_budget: Option<u32>,
}

/// What a job has from around the turn.
#[derive(Debug)]
pub struct JobOrigin<F, I> {
    pub request_id: String,
    pub session_hash: u64,
    pub image_pixels: Vec<(Vec<F>, usize, usize)>,
    /// A whole answer is decoded without drafts.
    pub disable_mtp: bool,
    pub timeout_at: Option<I>,
}

/// How the answer goes out.
#[derive(Debug)]
pub struct Delivery {
    pub stream: bool,
    pub n: usize,
    pub tools_active: bool,
    pub tools: Vec<ToolDefinition>,
    pub cwd_hint: Option<String>,
    pub stops: Vec<String>,
    pub include_usage: bool,
    pub service_tier: Option<String>,
    pub metadata: Option<Vec<(String, String)>>,
    pub store: Option<bool>,
}

/// What is wrong with a request that asks for nothing out of range: tools
/// whose schemas no grammar can hold a call to, all of them named.
pub open spec fn tools_error<F>(req: ChatCompletionRequest<F>) -> Option<ErrorView> {
    match req.tools {
        Some(t) => if tool_errors(t@).len() > 0 {
            Some(plain_error(BAD_REQUEST, errors_text(tool_errors(t@))))
        } else {
            None
        },
        None => None,
    }
}

/// Why a request is not let in, if it is not.
pub open spec fn open_error<F>(
    req: ChatCompletionRequest<F>,
    temperature_ok: bool,
    top_p_ok: bool,
) -> Option<ErrorView> {
    match input_error(req, temperature_ok, top_p_ok) {
        Some(e) => Some(e),
        None => tools_error(req),
    }
}

impl<F> ChatTurn<F> {
    /// Lets a request in. Whether the temperature and the nucleus are in range
    /// is handed in.
    pub fn open(
        policy: &TurnPolicy,
        req: ChatCompletionRequest<F>,
        temperature_ok: bool,
        top_p_ok: bool,
    ) -> (r: Result<ChatTurn<F>, ApiError>)
        ensures
            match r {
                Ok(t) => {
                    &&& open_error(req, temperature_ok, top_p_ok) is None
                    &&& t.req == with_fallback(req, policy.fallback)
                    &&& t.tools_active == tools_in_use(req, policy.has_parser)
                },
                Err(e) => open_error(req, temperature_ok, top_p_ok) == Some(e@),
            },
    {
        match validate_input(&req, temperature_ok, top_p_ok) {
            Ok(()) => {},
            Err(e) => {
                return Err(e);
            },
        }
        if let Some(tools) = &req.tools {
            if let Err(errors) = validate_tools_for_grammar(tools.as_slice()) {
                return Err(ApiError::plain(BAD_REQUEST, describe_errors(&errors)));
            }
        }
        let tools_active = tools_active(&req, policy.has_parser);
        Ok(ChatTurn { req: fall_back(req, policy.fallback), tools_active })
    }

    /// Takes the prompt on how to call tools. It is for a turn in which tools
    /// are active.
    pub fn take_tool_prompt(&mut self, prompt: String)
        ensures
            final(self).tools_active == old(self).tools_active,
            message_views(final(self).req.messages@) == if old(self).tools_active {
                with_tool_prompt(message_views(old(self).req.messages@), prompt@)
            } else {
                message_views(old(self).req.messages@)
            },
            final(self).req == (ChatCompletionRequest {
                messages: final(self).req.messages,
                ..old(self).req
            }),
    {
        if self.tools_active {
            inject_tool_prompt(&mut self.req.messages, prompt);
        }
    }

    /// How the messages are laid out.
    pub open spec fn context(self, policy: TurnPolicy) -> EntryContext {
        EntryContext {
            tools_active: self.tools_active,
            thinking_in_tools: policy.thinking.thinking_in_tools,
            supports_thinking: policy.supports_thinking,
        }
    }

    /// Lays the messages out, and settles whether to think. `failed` says of
    /// each message whether its text reads like an error.
    pub fn lay_out(self, policy: &TurnPolicy, failed: &Vec<bool>) -> (r: LaidOut<F>)
        requires
            failed@.len() == self.req.messages@.len(),
        ensures
            r.req == self.req,
            r.tools_active == self.tools_active,
            ({
                let mv = message_views(self.req.messages@);
                let ctx = self.context(*policy);
                let es = entries(ctx, mv, failed@, mv.len());
                &&& entry_views(r.entries@) == with_cwd(es, self.tools_active, cwd_of(es))
                &&& views(r.images@) == all_images(ctx, mv, mv.len())
                &&& opt_view(r.cwd_hint) == cwd_of(es)
            }),
            (r.enable_thinking, r.thinking_budget) == thinking_for(
                policy.thinking,
                self.req,
                self.tools_active,
            ),
    {
        let ctx = EntryContext {
            tools_active: self.tools_active,
            thinking_in_tools: policy.thinking.thinking_in_tools,
            supports_thinking: policy.supports_thinking,
        };
        let built = build_msg_entries(&self.req.messages, failed, &ctx);
        let (enable_thinking, thinking_budget) = resolve_thinking(
            &policy.thinking,
            &self.req,
            self.tools_active,
        );
        LaidOut {
            req: self.req,
            tools_active: self.tools_active,
            entries: built.messages,
            images: built.images,
            cwd_hint: built.cwd_hint,
            enable_thinking,
            thinking_budget,
        }
    }
}

/// What becomes of a prompt: an error where it could not be made or leaves no
/// room for an answer.
pub open spec fn prompt_error(
    tokens: Result<Seq<u32>, Seq<char>>,
    max_seq_len: usize,
) -> Option<ErrorView> {
    match tokens {
        Err(e) => Some(plain_error(BAD_REQUEST, "Tokenization error: "@ + e)),
        Ok(t) => if t.len() >= max_seq_len {
            Some(
                plain_error(
                    BAD_REQUEST,
                    "Prompt too long: "@ + dec(t.len()) + " tokens exceeds max_seq_len "@ + dec(
                        max_seq_len as nat,
                    ) + " (leave room for output tokens)"@,
                ),
            )
        } else {
            None
        },
    }
}

/// What a rendered prompt says.
pub open spec fn rendered_view(r: Result<Vec<u32>, String>) -> Result<Seq<u32>, Seq<char>> {
    match r {
        Ok(t) => Ok(t@),
        Err(e) => Err(e@),
    }
}

impl<F> LaidOut<F> {
    /// Replaces bodies, and counts the replacements.
    pub fn replace_bodies(&mut self, mask: &Vec<Option<String>>) -> (r: usize)
        requires
            mask@.len() <= old(self).entries@.len(),
        ensures
            entry_views(final(self).entries@) == with_mask(
                entry_views(old(self).entries@),
                mask@,
            ),
            *final(self) == (LaidOut { entries: final(self).entries, ..*old(self) }),
            r == replacements(mask@),
    {
        apply_mask(&mut self.entries, mask)
    }

    /// The messages as the chat template takes them.
    pub fn template_messages(&self) -> (r: Vec<Json>)
        ensures
            json_views(r@) == entry_views(self.entries@).map_values(|e: EntryView| entry_json(e)),
    {
        json_messages(&self.entries)
    }

    /// Takes the tokens that the template rendered to, with the images in
    /// place, or the error of the rendering. A prompt that opens a thinking
    /// block makes the model think, unless the server's switch is set.
    pub fn take_prompt(self, policy: &TurnPolicy, rendered: Result<Vec<u32>, String>) -> (r: Result<
        Prompted<F>,
        ApiError,
    >)
        ensures
            match r {
                Err(e) => prompt_error(rendered_view(rendered), policy.max_seq_len) == Some(e@),
                Ok(p) => {
                    &&& prompt_error(rendered_view(rendered), policy.max_seq_len) is None
                    &&& rendered == Ok::<Vec<u32>, String>(p.tokens)
                    &&& p.req == self.req
                    &&& p.tools_active == self.tools_active
                    &&& p.cwd_hint == self.cwd_hint
                    &&& (p.enable_thinking, p.thinking_budget) == prompted_thinking(
                        policy.thinking,
                        (self.enable_thinking, self.thinking_budget),
                        opens_thinking(p.tokens@, policy.think_start, policy.think_end),
                        self.req.max_tokens as int,
                        self.tools_active,
                    )
                },
            },
    {
        let tokens = match rendered {
            Ok(t) => t,
            Err(e) => {
                return Err(tokenization_failed(e.as_str()));
            },
        };
        let (enable_thinking, thinking_budget) = if policy.thinking.disabled {
            (self.enable_thinking, self.thinking_budget)
        } else {
            template_thinking(
                &tokens,
                policy.think_start,
                policy.think_end,
                self.enable_thinking,
                self.thinking_budget,
                cap_budget(
                    &policy.thinking,
                    policy.thinking.max_thinking_budget,
                    self.req.max_tokens,
                    self.tools_active,
                ),
            )
        };
        match check_prompt_length(tokens.len(), policy.max_seq_len) {
            Ok(()) => {},
            Err(e) => {
                return Err(e);
            },
        }
        Ok(
            Prompted {
                req: self.req,
                tools_active: self.tools_active,
                cwd_hint: self.cwd_hint,
                tokens,
                enable_thinking,
                thinking_budget,
            },
        )
    }
}

/// How a job is sampled and constrained.
pub open spec fn setup_of<F, I>(job: Job<F, I>) -> SamplingSetup<F> {
    SamplingSetup {
        numbers: SamplingNumbers {
            temperature: job.temperature,
            top_k: job.top_k,
            top_p: job.top_p,
            top_n_sigma: job.top_n_sigma,
            min_p: job.min_p,
            repetition_penalty: job.repetition_penalty,
            presence_penalty: job.presence_penalty,
            frequency_penalty: job.frequency_penalty,
            dry_multiplier: job.dry_multiplier,
            dry_base: job.dry_base,
            dry_allowed_length: job.dry_allowed_length,
            lz_penalty: job.lz_penalty,
        },
        logit_bias: job.logit_bias,
        max_tokens: job.max_tokens,
        stop_tokens: job.stop_tokens,
        tool_choice_required: job.require_tool_call,
        grammar_spec: job.grammar_spec,
        top_logprobs: job.top_logprobs,
    }
}

/// What is wrong with a turn whose prompt is known, if anything: a penalty, or
/// several choices in a stream.
pub open spec fn job_error<F>(req: ChatCompletionRequest<F>, ctx: SamplingContext) -> Option<
    ErrorView,
> {
    match penalty_error(ctx.presence_out, ctx.frequency_out) {
        Some(e) => Some(e),
        None => if req.stream && req.n > 1 {
            Some(plain_error(BAD_REQUEST, "n > 1 is not supported in streaming mode"@))
        } else {
            None
        },
    }
}

/// The tools that a request declares.
pub open spec fn declared<F>(req: ChatCompletionRequest<F>) -> Seq<ToolView> {
    match req.tools {
        Some(t) => tool_views(t@),
        None => Seq::empty(),
    }
}

impl Delivery {
    /// The answer to `p` goes out in this way.
    pub open spec fn delivers<F>(self, p: Prompted<F>) -> bool {
        &&& self.stream == p.req.stream
        &&& self.n == p.req.n
        &&& self.tools_active == p.tools_active
        &&& tool_views(self.tools@) == declared(p.req)
        &&& self.cwd_hint == p.cwd_hint
        &&& self.stops == p.req.stop
        &&& self.include_usage == (p.req.stream_options matches Some(o) && o.include_usage)
        &&& self.service_tier == p.req.service_tier
        &&& self.metadata == p.req.metadata
        &&& self.store == p.req.store
    }
}

impl<F> Prompted<F> {
    /// What is sampled with, `ctx` aside from what the turn itself settles.
    pub open spec fn sampled_in(self, ctx: SamplingContext) -> SamplingContext {
        SamplingContext {
            tools_active: self.tools_active,
            enable_thinking: self.enable_thinking,
            ..ctx
        }
    }
}

impl<F: Copy> Prompted<F> {
    /// The sampling numbers.
    pub fn numbers(&self, presets: &SamplingPresets<F>) -> (r: SamplingNumbers<F>)
        ensures
            r == numbers_of(self.req, *presets, self.tools_active, self.enable_thinking),
    {
        choose_numbers(&self.req, presets, self.tools_active, self.enable_thinking)
    }

    /// Makes the job out of the turn. Whether tools are active and whether to
    /// think is the turn's word, not the context's.
    pub fn into_job<I>(
        self,
        numbers: SamplingNumbers<F>,
        ctx: SamplingContext,
        origin: JobOrigin<F, I>,
    ) -> (r: Result<(Job<F, I>, Delivery), ApiError>)
        ensures
            match r {
                Err(e) => job_error(self.req, ctx) == Some(e@),
                Ok((job, d)) => {
                    &&& job_error(self.req, ctx) is None
                    &&& settles(self.req, numbers, self.sampled_in(ctx), setup_of(job))
                    &&& job.prompt_tokens == self.tokens
                    &&& job.enable_thinking == self.enable_thinking
                    &&& job.thinking_budget == self.thinking_budget
                    &&& job.min_tokens == self.req.min_tokens
                    &&& job.seed == self.req.seed
                    &&& job.request_id == origin.request_id
                    &&& job.session_hash == origin.session_hash
                    &&& job.image_pixels == origin.image_pixels
                    &&& job.disable_mtp == (!self.req.stream && origin.disable_mtp)
                    &&& job.timeout_at == origin.timeout_at
                    &&& d.delivers(self)
                },
            },
    {
        let mut req = self.req;
        let tools_active = self.tools_active;
        let enable_thinking = self.enable_thinking;
        let stream = req.stream;
        let n = req.n;
        let min_tokens = req.min_tokens;
        let seed = req.seed;
        let store = req.store;
        let include_usage = match &req.stream_options {
            Some(o) => o.include_usage,
            None => false,
        };
        let tools = match &req.tools {
            Some(t) => copy_tools(t),
            None => {
                let none: Vec<ToolDefinition> = Vec::new();
                assert(tool_views(none@) =~= Seq::empty());
                none
            },
        };
        let mut stops: Vec<String> = Vec::new();
        std::mem::swap(&mut stops, &mut req.stop);
        let service_tier = req.service_tier.take();
        let metadata = req.metadata.take();
        let ctx = SamplingContext { tools_active, enable_thinking, ..ctx };
        let s = match build_sampling(req, numbers, ctx) {
            Ok(s) => s,
            Err(e) => {
                return Err(e);
            },
        };
        if stream {
            match check_stream_choices(n) {
                Ok(()) => {},
                Err(e) => {
                    return Err(e);
                },
            }
        }
        let job = Job {
            request_id: origin.request_id,
            prompt_tokens: self.tokens,
            session_hash: origin.session_hash,
            image_pixels: origin.image_pixels,
            max_tokens: s.max_tokens,
            min_tokens,
            temperature: s.numbers.temperature,
            top_k: s.numbers.top_k,
            top_p: s.numbers.top_p,
            top_n_sigma: s.numbers.top_n_sigma,
            min_p: s.numbers.min_p,
            repetition_penalty: s.numbers.repetition_penalty,
            presence_penalty: s.numbers.presence_penalty,
            frequency_penalty: s.numbers.frequency_penalty,
            dry_multiplier: s.numbers.dry_multiplier,
            dry_base: s.numbers.dry_base,
            dry_allowed_length: s.numbers.dry_allowed_length,
            lz_penalty: s.numbers.lz_penalty,
            logit_bias: s.logit_bias,
            stop_tokens: s.stop_tokens,
            enable_thinking,
            thinking_budget: self.thinking_budget,
            require_tool_call: s.tool_choice_required,
            disable_mtp: !stream && origin.disable_mtp,
            grammar_spec: s.grammar_spec,
            seed,
            top_logprobs: s.top_logprobs,
            timeout_at: origin.timeout_at,
        };
        let d = Delivery {
            stream,
            n,
            tools_active,
            tools,
            cwd_hint: self.cwd_hint,
            stops,
            include_usage,
            service_tier,
            metadata,
            store,
        };
        Ok((job, d))
    }
}

/// A request that rules out calls, or that declares no tool, is answered
/// without any: no prompt on tools goes in, and neither is a call required nor
/// does the grammar ask for one.
pub proof fn law_no_calls_unasked<F>(
    req: ChatCompletionRequest<F>,
    policy: TurnPolicy,
    numbers: SamplingNumbers<F>,
    ctx: SamplingContext,
    s: SamplingSetup<F>,
)
    requires
        req.chooses("none"@) || !req.declares_tools(),
        ctx.tools_active == tools_in_use(req, policy.has_parser),
        settles(req, numbers, ctx, s),
    ensures
        !ctx.tools_active,
        !s.tool_choice_required,
        !(s.grammar_spec matches Some(GrammarSpec::ToolCall { .. })),
        s.max_tokens == req.max_tokens,
{
}

/// The scheduler is handed what was settled: each number, limit and constraint
/// of the setup is that of the job.
pub proof fn law_job_holds_what_was_settled<F, I>(
    req: ChatCompletionRequest<F>,
    numbers: SamplingNumbers<F>,
    ctx: SamplingContext,
    job: Job<F, I>,
)
    requires
        settles(req, numbers, ctx, setup_of(job)),
    ensures
        job.temperature == numbers.temperature,
        job.top_k == numbers.top_k,
        job.top_p == numbers.top_p,
        job.top_n_sigma == numbers.top_n_sigma,
        job.min_p == numbers.min_p,
        job.repetition_penalty == numbers.repetition_penalty,
        job.presence_penalty == numbers.presence_penalty,
        job.frequency_penalty == numbers.frequency_penalty,
        job.dry_multiplier == numbers.dry_multiplier,
        job.dry_base == numbers.dry_base,
        job.dry_allowed_length == numbers.dry_allowed_length,
        job.lz_penalty == numbers.lz_penalty,
        job.max_tokens <= req.max_tokens,
        !ctx.tools_active ==> job.max_tokens == req.max_tokens,
        ctx.tools_active ==> job.max_tokens <= ctx.tool_max_tokens,
        (req.tool_choice matches Some(c) && c.is_mode("required"@)) && ctx.tools_active
            ==> job.require_tool_call,
        !ctx.tools_active ==> !job.require_tool_call,
        !ctx.tools_active && req.response_format is None ==> job.grammar_spec is None,
        (job.top_logprobs is Some) == (req.top_logprobs is Some),
        req.logit_bias is None ==> job.logit_bias@.len() == 0,
{
}

/// The answer goes out as the request asked: streamed or whole, in as many
/// choices, with its stop strings, its tools, its labels, and stored where it
/// is to be.
pub proof fn law_delivery_is_the_request<F>(p: Prompted<F>, d: Delivery)
    requires
        d.delivers(p),
    ensures
        d.stream == p.req.stream,
        d.n == p.req.n,
        d.tools_active == p.tools_active,
        views(d.stops@) == views(p.req.stop@),
        p.req.stream_options matches Some(o) ==> d.include_usage == o.include_usage,
        p.req.stream_options is None ==> !d.include_usage,
        d.service_tier == p.req.service_tier,
        d.metadata == p.req.metadata,
        d.store == p.req.store,
        d.cwd_hint == p.cwd_hint,
        p.req.tools matches Some(t) ==> tool_views(d.tools@) == tool_views(t@),
        p.req.tools is None ==> d.tools@.len() == 0,
{
    assert(tool_views(d.tools@).len() == d.tools@.len());
}

/// A prompt is taken exactly where it was rendered and leaves room for an
/// answer; otherwise the client is told why.
pub proof fn law_prompts_leave_room(tokens: Seq<u32>, error: Seq<char>, max_seq_len: usize)
    ensures
        prompt_error(Ok(tokens), max_seq_len) is None <==> tokens.len() < max_seq_len,
        prompt_error(Ok(tokens), max_seq_len) matches Some(e) ==> e.status == 400,
        prompt_error(Err(error), max_seq_len) matches Some(e) && e.status == 400 && contains(
            e.message,
            error,
        ),
{
    let m = "Tokenization error: "@ + error;
    let n = "Tokenization error: "@.len() as int;
    assert(m.subrange(n, n + error.len()) =~= error);
    assert(occurs_at(m, error, n));
}

/// A request is let in exactly where it keeps to the limits and every tool that
/// it declares has a schema that a grammar can hold a call to.
pub proof fn law_requests_are_let_in<F>(
    req: ChatCompletionRequest<F>,
    temperature_ok: bool,
    top_p_ok: bool,
)
    ensures
        open_error(req, temperature_ok, top_p_ok) is None <==> input_error(
            req,
            temperature_ok,
            top_p_ok,
        ) is None && (req.tools matches Some(t) ==> tool_errors(t@).len() == 0),
        open_error(req, temperature_ok, top_p_ok) matches Some(e) ==> e.status == 400,
{
    crate::chat::validate::law_requests_are_checked(req, temperature_ok, top_p_ok);
}

/// What is sampled with is the turn's own word on tools and on thinking.
pub proof fn law_turn_decides<F>(p: Prompted<F>, ctx: SamplingContext)
    ensures
        p.sampled_in(ctx).tools_active == p.tools_active,
        p.sampled_in(ctx).enable_thinking == p.enable_thinking,
        p.sampled_in(ctx).encodings == ctx.encodings,
        p.sampled_in(ctx).call_end == ctx.call_end,
        p.sampled_in(ctx).parser == ctx.parser,
        p.sampled_in(ctx).tool_max_tokens == ctx.tool_max_tokens,
{
}

/// Several choices are not streamed, and penalties must be in range; nothing
/// else stands between a prompt and its job.
pub proof fn law_jobs_are_made<F>(req: ChatCompletionRequest<F>, ctx: SamplingContext)
    ensures
        job_error(req, ctx) is None <==> ctx.presence_out is None && ctx.frequency_out is None && !(
        req.stream && req.n > 1),
        job_error(req, ctx) matches Some(e) ==> e.status == 400,
{
}

/// The messages are laid out for this turn: with tools where they are in use,
/// and as the model thinks. A prompt is its tokens, or why there are none.
pub proof fn law_layout_is_the_turns<F>(t: ChatTurn<F>, policy: TurnPolicy, r: Result<Vec<u32>, String>)
    ensures
        t.context(policy).tools_active == t.tools_active,
        t.context(policy).thinking_in_tools == policy.thinking.thinking_in_tools,
        t.context(policy).supports_thinking == policy.supports_thinking,
        r matches Ok(v) ==> rendered_view(r) == Ok::<Seq<u32>, Seq<char>>(v@),
        r matches Err(e) ==> rendered_view(r) == Err::<Seq<u32>, Seq<char>>(e@),
{
}

} // verus!

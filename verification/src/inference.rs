//! What the handlers and the scheduler hand each other.
//!
//! `F` is the type of the sampling numbers, `D` that of times taken, `I` that
//! of points in time, and `R` and `S` those of the channels on which answers
//! come back.
use vstd::prelude::*;
use crate::chat::sampling::GrammarSpec;
use crate::chat_blocking::choice_seed;
use crate::chat_blocking::seed_of;
use crate::json::JsonView;
use crate::text::own;
use crate::tools::{copy_opt, FunctionDefinition, ToolDefinition};
use crate::tools::opt_view;

verus! {

/// The log-probabilities at one token.
#[derive(Debug, Clone)]
pub struct TokenLogprobs<F> {
    /// The token that was chosen.
    pub token_id: u32,
    pub logprob: F,
    /// The likeliest tokens.
    pub top: Vec<(u32, F)>,
}

/// An answer of the scheduler.
#[derive(Debug)]
pub struct InferenceResponse<F, D> {
    pub output_tokens: Vec<u32>,
    pub finish_reason: String,
    pub time_to_first_token_ms: D,
    pub decode_time_ms: D,
    /// One entry for each token, where they were asked for.
    pub logprobs: Vec<TokenLogprobs<F>>,
    pub reasoning_tokens: u32,
    pub cached_prompt_tokens: u32,
    pub accepted_prediction_tokens: u32,
    pub rejected_prediction_tokens: u32,
}

/// An event of an answer that is streamed.
#[derive(Debug)]
pub enum StreamEvent<F, D> {
    Token(u32),
    TokenWithLogprobs(u32, TokenLogprobs<F>),
    Done {
        finish_reason: String,
        prompt_tokens: usize,
        completion_tokens: usize,
        time_to_first_token_ms: D,
        decode_time_ms: D,
        reasoning_tokens: u32,
        cached_prompt_tokens: u32,
        accepted_prediction_tokens: u32,
        rejected_prediction_tokens: u32,
    },
    Error(String),
}

/// What the scheduler is to do.
#[derive(Debug)]
pub struct Job<F, I> {
    pub request_id: String,
    pub prompt_tokens: Vec<u32>,
    pub session_hash: u64,
    /// Images: their pixels, their height and their width.
    pub image_pixels: Vec<(Vec<F>, usize, usize)>,
    pub max_tokens: usize,
    pub min_tokens: usize,
    pub temperature: F,
    pub top_k: u32,
    pub top_p: F,
    pub top_n_sigma: F,
    pub min_p: F,
    pub repetition_penalty: F,
    pub presence_penalty: F,
    pub frequency_penalty: F,
    pub dry_multiplier: F,
    pub dry_base: F,
    pub dry_allowed_length: u32,
    pub lz_penalty: F,
    pub logit_bias: Vec<(u32, F)>,
    pub stop_tokens: Vec<u32>,
    pub enable_thinking: bool,
    pub thinking_budget: Option<u32>,
    pub require_tool_call: bool,
    pub disable_mtp: bool,
    pub grammar_spec: Option<GrammarSpec>,
    pub seed: Option<u64>,
    pub top_logprobs: Option<u8>,
    pub timeout_at: Option<I>,
}

/// A request to the scheduler.
#[derive(Debug)]
pub enum InferenceRequest<F, I, R, S> {
    /// The answer comes back whole.
    Blocking { job: Job<F, I>, response_tx: R },
    /// The answer comes back token by token.
    Streaming { job: Job<F, I>, token_tx: S },
}

/// The same request with other images.
pub open spec fn with_images<F, I>(j: Job<F, I>, images: Vec<(Vec<F>, usize, usize)>) -> Job<F, I> {
    Job { image_pixels: images, ..j }
}

/// The same request with other stop tokens.
pub open spec fn with_stops<F, I>(j: Job<F, I>, stops: Vec<u32>) -> Job<F, I> {
    Job { stop_tokens: stops, ..j }
}

/// The same request with another grammar.
pub open spec fn with_grammar<F, I>(j: Job<F, I>, spec: Option<GrammarSpec>) -> Job<F, I> {
    Job { grammar_spec: spec, ..j }
}

// ---------------------------------------------------------------------------
// The jobs of several choices
// ---------------------------------------------------------------------------
/// What an image holds.
pub open spec fn image_view<F>(i: (Vec<F>, usize, usize)) -> (Seq<F>, usize, usize) {
    (i.0@, i.1, i.2)
}

/// What images hold.
pub open spec fn image_views<F>(s: Seq<(Vec<F>, usize, usize)>) -> Seq<(Seq<F>, usize, usize)> {
    s.map_values(|i: (Vec<F>, usize, usize)| image_view(i))
}

/// What a tool says.
pub struct ToolView {
    pub tool_type: Seq<char>,
    pub name: Seq<char>,
    pub description: Option<Seq<char>>,
    pub parameters: Option<JsonView>,
}

/// What a tool says.
pub open spec fn tool_view(t: ToolDefinition) -> ToolView {
    ToolView {
        tool_type: t.tool_type@,
        name: t.function.name@,
        description: opt_view(t.function.description),
        parameters: match t.function.parameters {
            Some(p) => Some(p@),
            None => None,
        },
    }
}

/// What tools say.
pub open spec fn tool_views(s: Seq<ToolDefinition>) -> Seq<ToolView> {
    s.map_values(|t: ToolDefinition| tool_view(t))
}

/// What a grammar says.
pub enum GrammarView {
    ToolCall { tools: Seq<ToolView>, parser: Seq<char>, use_triggers: bool, enable_thinking: bool },
    JsonObject,
    JsonSchema { schema: JsonView },
}

/// What a grammar says.
pub open spec fn grammar_view(g: Option<GrammarSpec>) -> Option<GrammarView> {
    match g {
        None => None,
        Some(GrammarSpec::ToolCall { tools, parser, use_triggers, enable_thinking }) => Some(
            GrammarView::ToolCall {
                tools: tool_views(tools@),
                parser: parser@,
                use_triggers,
                enable_thinking,
            },
        ),
        Some(GrammarSpec::JsonObject) => Some(GrammarView::JsonObject),
        Some(GrammarSpec::JsonSchema { schema }) => Some(
            GrammarView::JsonSchema { schema: schema@ },
        ),
    }
}

/// Two jobs sample in the same way.
pub open spec fn samples_alike<F, I>(a: Job<F, I>, b: Job<F, I>) -> bool {
    &&& a.max_tokens == b.max_tokens
    &&& a.min_tokens == b.min_tokens
    &&& a.temperature == b.temperature
    &&& a.top_k == b.top_k
    &&& a.top_p == b.top_p
    &&& a.top_n_sigma == b.top_n_sigma
    &&& a.min_p == b.min_p
    &&& a.repetition_penalty == b.repetition_penalty
    &&& a.presence_penalty == b.presence_penalty
    &&& a.frequency_penalty == b.frequency_penalty
    &&& a.dry_multiplier == b.dry_multiplier
    &&& a.dry_base == b.dry_base
    &&& a.dry_allowed_length == b.dry_allowed_length
    &&& a.lz_penalty == b.lz_penalty
    &&& a.logit_bias@ == b.logit_bias@
    &&& a.stop_tokens@ == b.stop_tokens@
    &&& a.enable_thinking == b.enable_thinking
    &&& a.thinking_budget == b.thinking_budget
    &&& a.require_tool_call == b.require_tool_call
    &&& a.disable_mtp == b.disable_mtp
    &&& grammar_view(a.grammar_spec) == grammar_view(b.grammar_spec)
    &&& a.top_logprobs == b.top_logprobs
    &&& a.timeout_at == b.timeout_at
}

/// Copies a tool.
fn copy_tool(t: &ToolDefinition) -> (r: ToolDefinition)
    ensures
        tool_view(r) == tool_view(*t),
{
    ToolDefinition {
        tool_type: t.tool_type.clone(),
        function: FunctionDefinition {
            name: t.function.name.clone(),
            description: copy_opt(&t.function.description),
            parameters: match &t.function.parameters {
                Some(p) => Some(p.copy()),
                None => None,
            },
        },
    }
}

/// Copies tools.
pub fn copy_tools(v: &Vec<ToolDefinition>) -> (r: Vec<ToolDefinition>)
    ensures
        tool_views(r@) == tool_views(v@),
{
    let mut out: Vec<ToolDefinition> = Vec::new();
    let mut i: usize = 0;
    while i < v.len()
        invariant
            i <= v@.len(),
            out@.len() == i,
            forall|k: int| 0 <= k < i ==> tool_view(#[trigger] out@[k]) == tool_view(v@[k]),
        decreases v@.len() - i,
    {
        out.push(copy_tool(&v[i]));
        i += 1;
    }
    assert(tool_views(out@) =~= tool_views(v@));
    out
}

/// Copies a grammar.
fn copy_grammar(g: &Option<GrammarSpec>) -> (r: Option<GrammarSpec>)
    ensures
        grammar_view(r) == grammar_view(*g),
{
    match g {
        None => None,
        Some(GrammarSpec::ToolCall { tools, parser, use_triggers, enable_thinking }) => Some(
            GrammarSpec::ToolCall {
                tools: copy_tools(tools),
                parser: parser.clone(),
                use_triggers: *use_triggers,
                enable_thinking: *enable_thinking,
            },
        ),
        Some(GrammarSpec::JsonObject) => Some(GrammarSpec::JsonObject),
        Some(GrammarSpec::JsonSchema { schema }) => Some(
            GrammarSpec::JsonSchema { schema: schema.copy() },
        ),
    }
}

/// Copies a list.
fn copy_list<T: Copy>(v: &Vec<T>) -> (r: Vec<T>)
    ensures
        r@ == v@,
{
    let mut out: Vec<T> = Vec::new();
    let mut i: usize = 0;
    while i < v.len()
        invariant
            i <= v@.len(),
            out@ == v@.take(i as int),
        decreases v@.len() - i,
    {
        out.push(v[i]);
        i += 1;
        assert(out@ =~= v@.take(i as int));
    }
    assert(v@.take(i as int) =~= v@);
    out
}

/// Copies images.
fn copy_images<F: Copy>(v: &Vec<(Vec<F>, usize, usize)>) -> (r: Vec<(Vec<F>, usize, usize)>)
    ensures
        image_views(r@) == image_views(v@),
{
    let mut out: Vec<(Vec<F>, usize, usize)> = Vec::new();
    let mut i: usize = 0;
    while i < v.len()
        invariant
            i <= v@.len(),
            out@.len() == i,
            forall|k: int| 0 <= k < i ==> image_view(#[trigger] out@[k]) == image_view(v@[k]),
        decreases v@.len() - i,
    {
        out.push((copy_list(&v[i].0), v[i].1, v[i].2));
        i += 1;
    }
    assert(image_views(out@) =~= image_views(v@));
    out
}

impl<F: Copy, I: Copy> Job<F, I> {
    /// The job of one of several choices: the same prompt, sampled in the same
    /// way from a seed of its own. The images go with the first choice.
    pub fn for_choice(&self, choice_idx: usize) -> (r: Job<F, I>)
        ensures
            r.request_id@ == self.request_id@,
            r.prompt_tokens@ == self.prompt_tokens@,
            r.session_hash == self.session_hash,
            image_views(r.image_pixels@) == if choice_idx == 0 {
                image_views(self.image_pixels@)
            } else {
                Seq::empty()
            },
            samples_alike(r, *self),
            r.seed == seed_of(self.seed, choice_idx as int),
    {
        let image_pixels = if choice_idx == 0 {
            copy_images(&self.image_pixels)
        } else {
            let none: Vec<(Vec<F>, usize, usize)> = Vec::new();
            assert(image_views(none@) =~= Seq::empty());
            none
        };
        Job {
            request_id: self.request_id.clone(),
            prompt_tokens: copy_list(&self.prompt_tokens),
            session_hash: self.session_hash,
            image_pixels,
            max_tokens: self.max_tokens,
            min_tokens: self.min_tokens,
            temperature: self.temperature,
            top_k: self.top_k,
            top_p: self.top_p,
            top_n_sigma: self.top_n_sigma,
            min_p: self.min_p,
            repetition_penalty: self.repetition_penalty,
            presence_penalty: self.presence_penalty,
            frequency_penalty: self.frequency_penalty,
            dry_multiplier: self.dry_multiplier,
            dry_base: self.dry_base,
            dry_allowed_length: self.dry_allowed_length,
            lz_penalty: self.lz_penalty,
            logit_bias: copy_list(&self.logit_bias),
            stop_tokens: copy_list(&self.stop_tokens),
            enable_thinking: self.enable_thinking,
            thinking_budget: self.thinking_budget,
            require_tool_call: self.require_tool_call,
            disable_mtp: self.disable_mtp,
            grammar_spec: copy_grammar(&self.grammar_spec),
            seed: choice_seed(self.seed, choice_idx),
            top_logprobs: self.top_logprobs,
            timeout_at: self.timeout_at,
        }
    }
}

impl<F: Copy, I: Copy, R, S> InferenceRequest<F, I, R, S> {
    /// What the scheduler is to do.
    pub open spec fn job(self) -> Job<F, I> {
        match self {
            InferenceRequest::Blocking { job, .. } => job,
            InferenceRequest::Streaming { job, .. } => job,
        }
    }

    /// The same channel, with something else to do.
    pub open spec fn redone(self, j: Job<F, I>) -> InferenceRequest<F, I, R, S> {
        match self {
            InferenceRequest::Blocking { response_tx, .. } => InferenceRequest::Blocking {
                job: j,
                response_tx,
            },
            InferenceRequest::Streaming { token_tx, .. } => InferenceRequest::Streaming {
                job: j,
                token_tx,
            },
        }
    }

    /// What the scheduler is to do.
    pub fn the_job(&self) -> (r: &Job<F, I>)
        ensures
            *r == self.job(),
    {
        match self {
            InferenceRequest::Blocking { job, .. } => job,
            InferenceRequest::Streaming { job, .. } => job,
        }
    }

    /// The number of tokens of the prompt.
    pub fn prompt_len(&self) -> (r: usize)
        ensures
            r == self.job().prompt_tokens@.len(),
    {
        self.the_job().prompt_tokens.len()
    }

    /// The identifier of the request.
    pub fn request_id(&self) -> (r: &str)
        ensures
            r@ == self.job().request_id@,
    {
        self.the_job().request_id.as_str()
    }

    /// Takes the images out.
    pub fn take_image_pixels(&mut self) -> (r: Vec<(Vec<F>, usize, usize)>)
        ensures
            r == old(self).job().image_pixels,
            final(self).job().image_pixels@.len() == 0,
            *final(self) == old(self).redone(
                with_images(old(self).job(), final(self).job().image_pixels),
            ),
    {
        let mut out: Vec<(Vec<F>, usize, usize)> = Vec::new();
        match self {
            InferenceRequest::Blocking { job, .. } => {
                std::mem::swap(&mut job.image_pixels, &mut out);
            },
            InferenceRequest::Streaming { job, .. } => {
                std::mem::swap(&mut job.image_pixels, &mut out);
            },
        }
        out
    }

    /// Takes the stop tokens out.
    pub fn take_stop_tokens(&mut self) -> (r: Vec<u32>)
        ensures
            r == old(self).job().stop_tokens,
            final(self).job().stop_tokens@.len() == 0,
            *final(self) == old(self).redone(
                with_stops(old(self).job(), final(self).job().stop_tokens),
            ),
    {
        let mut out: Vec<u32> = Vec::new();
        match self {
            InferenceRequest::Blocking { job, .. } => {
                std::mem::swap(&mut job.stop_tokens, &mut out);
            },
            InferenceRequest::Streaming { job, .. } => {
                std::mem::swap(&mut job.stop_tokens, &mut out);
            },
        }
        out
    }

    /// Takes the grammar out.
    pub fn take_grammar_spec(&mut self) -> (r: Option<GrammarSpec>)
        ensures
            r == old(self).job().grammar_spec,
            *final(self) == old(self).redone(with_grammar(old(self).job(), None)),
    {
        let mut out: Option<GrammarSpec> = None;
        match self {
            InferenceRequest::Blocking { job, .. } => {
                std::mem::swap(&mut job.grammar_spec, &mut out);
            },
            InferenceRequest::Streaming { job, .. } => {
                std::mem::swap(&mut job.grammar_spec, &mut out);
            },
        }
        out
    }

    /// The number of candidates.
    pub fn top_k(&self) -> (r: u32)
        ensures
            r == self.job().top_k,
    {
        self.the_job().top_k
    }

    /// The probability mass of the candidates.
    pub fn top_p(&self) -> (r: F)
        ensures
            r == self.job().top_p,
    {
        self.the_job().top_p
    }

    /// The spread of the candidates.
    pub fn top_n_sigma(&self) -> (r: F)
        ensures
            r == self.job().top_n_sigma,
    {
        self.the_job().top_n_sigma
    }

    /// The least probability of a candidate.
    pub fn min_p(&self) -> (r: F)
        ensures
            r == self.job().min_p,
    {
        self.the_job().min_p
    }

    /// The penalty on repetition.
    pub fn repetition_penalty(&self) -> (r: F)
        ensures
            r == self.job().repetition_penalty,
    {
        self.the_job().repetition_penalty
    }

    /// The penalty on presence.
    pub fn presence_penalty(&self) -> (r: F)
        ensures
            r == self.job().presence_penalty,
    {
        self.the_job().presence_penalty
    }

    /// The penalty on frequency.
    pub fn frequency_penalty(&self) -> (r: F)
        ensures
            r == self.job().frequency_penalty,
    {
        self.the_job().frequency_penalty
    }

    /// The weight of the penalty on repeated runs.
    pub fn dry_multiplier(&self) -> (r: F)
        ensures
            r == self.job().dry_multiplier,
    {
        self.the_job().dry_multiplier
    }

    /// The penalty on what compresses.
    pub fn lz_penalty(&self) -> (r: F)
        ensures
            r == self.job().lz_penalty,
    {
        self.the_job().lz_penalty
    }

    /// The base of the penalty on repeated runs.
    pub fn dry_base(&self) -> (r: F)
        ensures
            r == self.job().dry_base,
    {
        self.the_job().dry_base
    }

    /// The length up to which a repeated run is free.
    pub fn dry_allowed_length(&self) -> (r: u32)
        ensures
            r == self.job().dry_allowed_length,
    {
        self.the_job().dry_allowed_length
    }

    /// What is added to the logits of single tokens.
    pub fn logit_bias(&self) -> (r: &Vec<(u32, F)>)
        ensures
            *r == self.job().logit_bias,
    {
        &self.the_job().logit_bias
    }

    /// The hash by which the session is told from others.
    pub fn session_hash(&self) -> (r: u64)
        ensures
            r == self.job().session_hash,
    {
        self.the_job().session_hash
    }

    /// Says whether the model thinks.
    pub fn enable_thinking(&self) -> (r: bool)
        ensures
            r == self.job().enable_thinking,
    {
        self.the_job().enable_thinking
    }

    /// The tokens of thinking, where they are limited.
    pub fn thinking_budget(&self) -> (r: Option<u32>)
        ensures
            r == self.job().thinking_budget,
    {
        self.the_job().thinking_budget
    }

    /// Says whether the answer must be a tool call.
    pub fn require_tool_call(&self) -> (r: bool)
        ensures
            r == self.job().require_tool_call,
    {
        self.the_job().require_tool_call
    }

    /// Says whether speculative decoding is off.
    pub fn disable_mtp(&self) -> (r: bool)
        ensures
            r == self.job().disable_mtp,
    {
        self.the_job().disable_mtp
    }

    /// The seed, where sampling is to be repeatable.
    pub fn seed(&self) -> (r: Option<u64>)
        ensures
            r == self.job().seed,
    {
        self.the_job().seed
    }

    /// The tokens before which the answer may not end.
    pub fn min_tokens(&self) -> (r: usize)
        ensures
            r == self.job().min_tokens,
    {
        self.the_job().min_tokens
    }

    /// The number of likeliest tokens to report.
    pub fn top_logprobs(&self) -> (r: Option<u8>)
        ensures
            r == self.job().top_logprobs,
    {
        self.the_job().top_logprobs
    }

    /// When the request times out.
    pub fn timeout_at(&self) -> (r: Option<I>)
        ensures
            r == self.job().timeout_at,
    {
        self.the_job().timeout_at
    }
}

// ---------------------------------------------------------------------------
// Log-probabilities
// ---------------------------------------------------------------------------
/// One of the likeliest tokens, for the client.
#[derive(Debug, Clone)]
pub struct TopLogprob<F> {
    pub token: String,
    pub logprob: F,
    pub bytes: Option<Vec<u8>>,
}

/// A token, for the client.
#[derive(Debug, Clone)]
pub struct TokenLogprobInfo<F> {
    pub token: String,
    pub logprob: F,
    pub bytes: Option<Vec<u8>>,
    pub top_logprobs: Vec<TopLogprob<F>>,
}

/// The tokens of an answer, for the client.
#[derive(Debug, Clone)]
pub struct ChoiceLogprobs<F> {
    pub content: Vec<TokenLogprobInfo<F>>,
}

/// The texts of the tokens at one place, where they could be decoded: the
/// token that was chosen, and the likeliest ones.
#[derive(Debug)]
pub struct TokenTexts {
    pub token: Option<String>,
    pub top: Vec<Option<String>>,
}

/// A text, or nothing.
pub open spec fn text_or_none(o: Option<String>) -> Seq<char> {
    match o {
        Some(s) => s@,
        None => ""@,
    }
}

/// One of the likeliest tokens says what was decoded.
pub open spec fn top_says<F>(t: TopLogprob<F>, pair: (u32, F), text: Option<String>) -> bool {
    t.token@ == text_or_none(text) && t.logprob == pair.1 && t.bytes is None
}

/// A token says what was decoded.
pub open spec fn info_says<F>(
    info: TokenLogprobInfo<F>,
    lp: TokenLogprobs<F>,
    texts: TokenTexts,
) -> bool {
    &&& info.token@ == text_or_none(texts.token)
    &&& info.logprob == lp.logprob
    &&& info.bytes is None
    &&& info.top_logprobs@.len() == lp.top@.len()
    &&& forall|i: int|
        0 <= i < lp.top@.len() ==> top_says(
            #[trigger] info.top_logprobs@[i],
            lp.top@[i],
            texts.top@[i],
        )
}

/// The texts are those of the tokens.
pub open spec fn texts_fit<F>(lps: Seq<TokenLogprobs<F>>, texts: Seq<TokenTexts>) -> bool {
    &&& lps.len() == texts.len()
    &&& forall|i: int|
        0 <= i < lps.len() ==> (#[trigger] lps[i]).top@.len() == texts[i].top@.len()
}

/// A copy of a text, or nothing.
fn text_of(o: &Option<String>) -> (r: String)
    ensures
        r@ == text_or_none(*o),
{
    match o {
        Some(s) => s.clone(),
        None => own(""),
    }
}

/// The likeliest tokens at one place, for the client.
fn build_top<F: Copy>(top: &Vec<(u32, F)>, texts: &Vec<Option<String>>) -> (r: Vec<TopLogprob<F>>)
    requires
        top@.len() == texts@.len(),
    ensures
        r@.len() == top@.len(),
        forall|i: int| 0 <= i < top@.len() ==> top_says(#[trigger] r@[i], top@[i], texts@[i]),
{
    let mut out: Vec<TopLogprob<F>> = Vec::new();
    let mut i: usize = 0;
    while i < top.len()
        invariant
            i <= top@.len(),
            top@.len() == texts@.len(),
            out@.len() == i,
            forall|k: int| 0 <= k < i ==> top_says(#[trigger] out@[k], top@[k], texts@[k]),
        decreases top@.len() - i,
    {
        out.push(TopLogprob { token: text_of(&texts[i]), logprob: top[i].1, bytes: None });
        i += 1;
    }
    out
}

/// The log-probabilities of an answer, for the client: nothing where there are
/// none.
pub fn build_logprobs<F: Copy>(logprobs: &Vec<TokenLogprobs<F>>, texts: &Vec<TokenTexts>) -> (r:
    Option<ChoiceLogprobs<F>>)
    requires
        texts_fit(logprobs@, texts@),
    ensures
        match r {
            None => logprobs@.len() == 0,
            Some(c) => {
                &&& logprobs@.len() > 0
                &&& c.content@.len() == logprobs@.len()
                &&& forall|i: int|
                    0 <= i < logprobs@.len() ==> info_says(
                        #[trigger] c.content@[i],
                        logprobs@[i],
                        texts@[i],
                    )
            },
        },
{
    if logprobs.len() == 0 {
        return None;
    }
    let mut content: Vec<TokenLogprobInfo<F>> = Vec::new();
    let mut i: usize = 0;
    while i < logprobs.len()
        invariant
            i <= logprobs@.len(),
            texts_fit(logprobs@, texts@),
            content@.len() == i,
            forall|k: int|
                0 <= k < i ==> info_says(#[trigger] content@[k], logprobs@[k], texts@[k]),
        decreases logprobs@.len() - i,
    {
        assert(logprobs@[i as int].top@.len() == texts@[i as int].top@.len());
        let info = TokenLogprobInfo {
            token: text_of(&texts[i].token),
            logprob: logprobs[i].logprob,
            bytes: None,
            top_logprobs: build_top(&logprobs[i].top, &texts[i].top),
        };
        content.push(info);
        i += 1;
    }
    Some(ChoiceLogprobs { content })
}

/// Jobs that sample alike are sampled with the same numbers, all of them, held to
/// the same grammar and stopped by the same tokens.
pub proof fn law_alike_is_the_same_numbers<F, I>(a: Job<F, I>, b: Job<F, I>)
    requires
        samples_alike(a, b),
    ensures
        a.max_tokens == b.max_tokens && a.min_tokens == b.min_tokens,
        a.temperature == b.temperature,
        a.top_k == b.top_k && a.top_p == b.top_p && a.min_p == b.min_p,
        a.top_n_sigma == b.top_n_sigma,
        a.repetition_penalty == b.repetition_penalty,
        a.presence_penalty == b.presence_penalty,
        a.frequency_penalty == b.frequency_penalty,
        a.dry_multiplier == b.dry_multiplier && a.dry_base == b.dry_base && a.dry_allowed_length
            == b.dry_allowed_length,
        a.lz_penalty == b.lz_penalty,
        a.logit_bias@ == b.logit_bias@,
        a.stop_tokens@ == b.stop_tokens@,
        a.enable_thinking == b.enable_thinking && a.thinking_budget == b.thinking_budget,
        a.require_tool_call == b.require_tool_call,
        a.disable_mtp == b.disable_mtp,
        a.top_logprobs == b.top_logprobs,
        a.timeout_at == b.timeout_at,
        a.grammar_spec matches Some(GrammarSpec::ToolCall {
            tools: x,
            parser: p,
            use_triggers: t,
            enable_thinking: e,
        }) ==> (b.grammar_spec matches Some(GrammarSpec::ToolCall {
            tools: y,
            parser: q,
            use_triggers: u,
            enable_thinking: f,
        }) && p@ == q@ && t == u && e == f && x@.len() == y@.len() && forall|i: int|
            0 <= i < x@.len() ==> (#[trigger] x@[i]).function.name@ == y@[i].function.name@),
        a.grammar_spec matches Some(GrammarSpec::JsonSchema { schema: x }) ==> (
        b.grammar_spec matches Some(GrammarSpec::JsonSchema { schema: y }) && x@ == y@),
        a.grammar_spec matches Some(GrammarSpec::JsonObject) ==> b.grammar_spec matches Some(
            GrammarSpec::JsonObject,
        ),
        a.grammar_spec is None ==> b.grammar_spec is None,
{
    if let Some(GrammarSpec::ToolCall { tools: x, .. }) = a.grammar_spec {
        if let Some(GrammarSpec::ToolCall { tools: y, .. }) = b.grammar_spec {
            assert(tool_views(x@).len() == x@.len() && tool_views(y@).len() == y@.len());
            assert forall|i: int| 0 <= i < x@.len() implies (#[trigger] x@[i]).function.name@
                == y@[i].function.name@ by {
                assert(tool_views(x@)[i] == tool_view(x@[i]));
                assert(tool_views(y@)[i] == tool_view(y@[i]));
            }
        }
    }
}

/// A copied tool is whole: its type, its name, what it is for and what it takes.
pub proof fn law_tools_are_shown(t: ToolDefinition)
    ensures
        tool_view(t).tool_type == t.tool_type@,
        tool_view(t).name == t.function.name@,
        t.function.description matches Some(d) ==> tool_view(t).description == Some(d@),
        t.function.description is None ==> tool_view(t).description is None,
        t.function.parameters matches Some(p) ==> tool_view(t).parameters == Some(p@),
        t.function.parameters is None ==> tool_view(t).parameters is None,
{
}

/// What is taken out of a request is gone from it, and nothing else is.
pub proof fn law_taking_leaves_the_rest<F: Copy, I: Copy, R, S>(
    r: InferenceRequest<F, I, R, S>,
    images: Vec<(Vec<F>, usize, usize)>,
    stops: Vec<u32>,
    grammar: Option<GrammarSpec>,
)
    ensures
        r.redone(with_images(r.job(), images)).job() == (Job { image_pixels: images, ..r.job() }),
        r.redone(with_stops(r.job(), stops)).job() == (Job { stop_tokens: stops, ..r.job() }),
        r.redone(with_grammar(r.job(), grammar)).job() == (Job { grammar_spec: grammar, ..r.job() }),
        r.redone(r.job()) == r,
        r is Blocking <==> r.redone(with_stops(r.job(), stops)) is Blocking,
{
}

/// The log-probabilities of a token are told under its text: its own, and those
/// of each token that it was chosen from.
pub proof fn law_logprobs_are_told<F>(
    info: TokenLogprobInfo<F>,
    lp: TokenLogprobs<F>,
    texts: TokenTexts,
    i: int,
)
    requires
        info_says(info, lp, texts),
    ensures
        info.logprob == lp.logprob,
        texts.token matches Some(t) ==> info.token@ == t@,
        info.top_logprobs@.len() == lp.top@.len(),
        0 <= i < lp.top@.len() ==> info.top_logprobs@[i].logprob == lp.top@[i].1 && (
        texts.top@[i] matches Some(t) ==> info.top_logprobs@[i].token@ == t@),
{
    if 0 <= i < lp.top@.len() {
        assert(top_says(info.top_logprobs@[i], lp.top@[i], texts.top@[i]));
    }
}

} // verus!

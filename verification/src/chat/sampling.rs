//! How the answer to a request is sampled and constrained.
use vstd::prelude::*;
use crate::api_error::{ApiError, BAD_REQUEST};
use crate::api_error::{plain_error, ErrorView};
use crate::decimal::read_unsigned;
use crate::decimal::{dec, law_numbers_read_back, parse_unsigned};
use crate::json::Json;
use crate::openai::chat_request::{ChatCompletionRequest, ResponseFormat, ToolChoice};
use crate::text::{chars_of, own, same};
use crate::text::{contains, occurs_at};
use crate::tools::ToolDefinition;
use crate::tools::opt_view;

verus! {

// ---------------------------------------------------------------------------
// Grammar
// ---------------------------------------------------------------------------
/// What the output must keep to.
#[derive(Debug)]
pub enum GrammarSpec {
    /// Calls of these tools, in the format of this parser.
    ToolCall {
        tools: Vec<ToolDefinition>,
        parser: String,
        use_triggers: bool,
        enable_thinking: bool,
    },
    /// Any JSON.
    JsonObject,
    /// JSON that this schema admits.
    JsonSchema { schema: Json },
}

/// Whether a format constrains the output.
pub open spec fn constrains(f: Option<ResponseFormat>) -> bool {
    f matches Some(x) && !(x is Text)
}

/// Whether a tool call is required: by the tool choice, or by a parser whose
/// format admits nothing else.
pub open spec fn call_required<F>(
    req: ChatCompletionRequest<F>,
    parser: Option<Seq<char>>,
    tools_active: bool,
) -> bool {
    tools_active && ((req.tool_choice matches Some(c) && (c is Specific || c.is_mode("required"@)))
        || parser == Some("minimax_xml"@) || parser == Some("bare_json"@))
}

/// Computes [`call_required`].
pub fn tool_choice_required<F>(
    req: &ChatCompletionRequest<F>,
    parser: &Option<String>,
    tools_active: bool,
) -> (r: bool)
    ensures
        r == call_required(*req, opt_view(*parser), tools_active),
{
    if !tools_active {
        return false;
    }
    let asked = match &req.tool_choice {
        Some(ToolChoice::Specific { .. }) => true,
        Some(ToolChoice::Mode(m)) => same(m.as_str(), "required"),
        None => false,
    };
    if asked {
        return true;
    }
    match parser {
        Some(p) => same(p.as_str(), "minimax_xml") || same(p.as_str(), "bare_json"),
        None => false,
    }
}

/// Which grammar a request asks for.
#[derive(Debug, Clone, Copy, PartialEq, Eq, Structural)]
pub enum GrammarChoice {
    /// None.
    Free,
    /// That of the response format.
    Format,
    /// That of the tool calls.
    Calls,
}

/// Where both tools and a format are given, the calls win, unless the tool
/// choice rules them out.
pub open spec fn grammar_choice<F>(req: ChatCompletionRequest<F>, tools_active: bool) -> GrammarChoice {
    if constrains(req.response_format) && (!tools_active || req.chooses("none"@)) {
        GrammarChoice::Format
    } else if tools_active {
        GrammarChoice::Calls
    } else {
        GrammarChoice::Free
    }
}

/// Whether a tool may be called: all, or the one that the tool choice names.
pub open spec fn may_call(c: Option<ToolChoice>, t: ToolDefinition) -> bool {
    match c {
        Some(ToolChoice::Specific { function }) => t.function.name@ == function@,
        _ => true,
    }
}

/// Those of the tools that may be called.
pub open spec fn callable(c: Option<ToolChoice>, tools: Seq<ToolDefinition>) -> Seq<ToolDefinition>
    decreases tools.len(),
{
    if tools.len() == 0 {
        Seq::empty()
    } else {
        let before = callable(c, tools.drop_last());
        if may_call(c, tools.last()) {
            before.push(tools.last())
        } else {
            before
        }
    }
}

/// The tools of a request.
pub open spec fn tools_of(t: Option<Vec<ToolDefinition>>) -> Seq<ToolDefinition> {
    match t {
        Some(v) => v@,
        None => Seq::empty(),
    }
}

/// The grammar of a request: that of its response format, or that of the tools
/// that may be called.
pub open spec fn grammar_fits<F>(
    req: ChatCompletionRequest<F>,
    parser: Option<String>,
    tools_active: bool,
    enable_thinking: bool,
    r: Option<GrammarSpec>,
) -> bool {
    match grammar_choice(req, tools_active) {
        GrammarChoice::Free => r is None,
        GrammarChoice::Format => match req.response_format {
            Some(ResponseFormat::JsonObject) => r == Some(GrammarSpec::JsonObject),
            Some(ResponseFormat::JsonSchema { json_schema }) => r == Some(
                GrammarSpec::JsonSchema { schema: json_schema.schema },
            ),
            _ => false,
        },
        GrammarChoice::Calls => match parser {
            None => r is None,
            Some(p) => r matches Some(
                GrammarSpec::ToolCall { tools, parser: name, use_triggers, enable_thinking: think },
            ) && tools@ == callable(req.tool_choice, tools_of(req.tools)) && name@ == p@
                && use_triggers == !call_required(req, opt_view(parser), tools_active) && think
                == enable_thinking,
        },
    }
}

/// Takes the grammar out of a request: its tools or its format go into the
/// grammar. `parser` is the name of the model's tool-call parser.
pub fn build_grammar<F>(
    req: ChatCompletionRequest<F>,
    parser: Option<String>,
    tools_active: bool,
    enable_thinking: bool,
) -> (r: Option<GrammarSpec>)
    ensures
        grammar_fits(req, parser, tools_active, enable_thinking, r),
{
    let required = tool_choice_required(&req, &parser, tools_active);
    let none_chosen = req.choice_is("none");
    let constrained = match &req.response_format {
        Some(ResponseFormat::Text) => false,
        Some(_) => true,
        None => false,
    };
    if constrained && (!tools_active || none_chosen) {
        return match req.response_format {
            Some(ResponseFormat::JsonObject) => Some(GrammarSpec::JsonObject),
            Some(ResponseFormat::JsonSchema { json_schema }) => Some(
                GrammarSpec::JsonSchema { schema: json_schema.schema },
            ),
            _ => None,
        };
    }
    if !tools_active {
        return None;
    }
    let p = match parser {
        Some(p) => p,
        None => return None,
    };
    let tools = match req.tools {
        Some(t) => t,
        None => Vec::new(),
    };
    let kept = keep_callable(tools, &req.tool_choice);
    Some(
        GrammarSpec::ToolCall {
            tools: kept,
            parser: p,
            use_triggers: !required,
            enable_thinking,
        },
    )
}

/// Computes [`callable`].
fn keep_callable(tools: Vec<ToolDefinition>, choice: &Option<ToolChoice>) -> (r: Vec<
    ToolDefinition,
>)
    ensures
        r@ == callable(*choice, tools@),
{
    let ghost all = tools@;
    let mut rest = tools;
    let mut kept: Vec<ToolDefinition> = Vec::new();
    let ghost mut k: int = 0;
    assert(all.take(0) =~= Seq::<ToolDefinition>::empty());
    while rest.len() > 0
        invariant
            0 <= k <= all.len(),
            rest@ == all.skip(k),
            kept@ == callable(*choice, all.take(k)),
        decreases rest@.len(),
    {
        let t = rest.remove(0);
        assert(t == all[k]);
        assert(rest@ =~= all.skip(k + 1));
        assert(all.take(k + 1).drop_last() =~= all.take(k));
        let keep = match choice {
            Some(ToolChoice::Specific { function }) => same(
                t.function.name.as_str(),
                function.as_str(),
            ),
            _ => true,
        };
        if keep {
            kept.push(t);
        }
        proof {
            k = k + 1;
        }
    }
    assert(all.take(k) =~= all);
    kept
}

// ---------------------------------------------------------------------------
// Numbers
// ---------------------------------------------------------------------------
/// The sampling numbers of a kind of request. `F` is the type of the
/// fractional ones.
#[derive(Debug, Clone, Copy)]
pub struct SamplingPreset<F> {
    pub temperature: F,
    pub top_k: u32,
    pub top_p: F,
    pub repetition_penalty: F,
    pub presence_penalty: F,
    pub frequency_penalty: F,
    pub dry_multiplier: F,
    pub dry_base: F,
    pub dry_allowed_length: u32,
    pub lz_penalty: F,
}

/// The sampling numbers of a model.
#[derive(Debug, Clone, Copy)]
pub struct SamplingPresets<F> {
    /// While tools are active.
    pub tools: SamplingPreset<F>,
    /// While thinking.
    pub thinking_text: SamplingPreset<F>,
    /// Otherwise.
    pub non_thinking: SamplingPreset<F>,
    pub top_n_sigma: F,
    pub min_p: F,
}

/// The sampling numbers of a request.
#[derive(Debug, Clone, Copy)]
pub struct SamplingNumbers<F> {
    pub temperature: F,
    pub top_k: u32,
    pub top_p: F,
    pub top_n_sigma: F,
    pub min_p: F,
    pub repetition_penalty: F,
    pub presence_penalty: F,
    pub frequency_penalty: F,
    pub dry_multiplier: F,
    pub dry_base: F,
    pub dry_allowed_length: u32,
    pub lz_penalty: F,
}

/// What is given, or else the default.
pub open spec fn given<T>(o: Option<T>, default: T) -> T {
    match o {
        Some(x) => x,
        None => default,
    }
}

/// Computes [`given`].
fn given_or<T: Copy>(o: Option<T>, default: T) -> (r: T)
    ensures
        r == given(o, default),
{
    match o {
        Some(x) => x,
        None => default,
    }
}

/// The preset of a request.
pub open spec fn preset_of<F>(
    presets: SamplingPresets<F>,
    tools_active: bool,
    enable_thinking: bool,
) -> SamplingPreset<F> {
    if tools_active {
        presets.tools
    } else if enable_thinking {
        presets.thinking_text
    } else {
        presets.non_thinking
    }
}

/// The sampling numbers of a request: its own, or else those of the preset.
pub open spec fn numbers_of<F>(
    req: ChatCompletionRequest<F>,
    presets: SamplingPresets<F>,
    tools_active: bool,
    enable_thinking: bool,
) -> SamplingNumbers<F> {
    let p = preset_of(presets, tools_active, enable_thinking);
    SamplingNumbers {
        temperature: given(req.temperature, p.temperature),
        top_k: given(req.top_k, p.top_k),
        top_p: given(req.top_p, p.top_p),
        top_n_sigma: given(req.top_n_sigma, presets.top_n_sigma),
        min_p: given(req.min_p, presets.min_p),
        repetition_penalty: given(req.repetition_penalty, p.repetition_penalty),
        presence_penalty: given(req.presence_penalty, p.presence_penalty),
        frequency_penalty: given(req.frequency_penalty, p.frequency_penalty),
        dry_multiplier: p.dry_multiplier,
        dry_base: p.dry_base,
        dry_allowed_length: p.dry_allowed_length,
        lz_penalty: p.lz_penalty,
    }
}

/// Computes [`numbers_of`].
pub fn choose_numbers<F: Copy>(
    req: &ChatCompletionRequest<F>,
    presets: &SamplingPresets<F>,
    tools_active: bool,
    enable_thinking: bool,
) -> (r: SamplingNumbers<F>)
    ensures
        r == numbers_of(*req, *presets, tools_active, enable_thinking),
{
    let p = if tools_active {
        presets.tools
    } else if enable_thinking {
        presets.thinking_text
    } else {
        presets.non_thinking
    };
    SamplingNumbers {
        temperature: given_or(req.temperature, p.temperature),
        top_k: given_or(req.top_k, p.top_k),
        top_p: given_or(req.top_p, p.top_p),
        top_n_sigma: given_or(req.top_n_sigma, presets.top_n_sigma),
        min_p: given_or(req.min_p, presets.min_p),
        repetition_penalty: given_or(req.repetition_penalty, p.repetition_penalty),
        presence_penalty: given_or(req.presence_penalty, p.presence_penalty),
        frequency_penalty: given_or(req.frequency_penalty, p.frequency_penalty),
        dry_multiplier: p.dry_multiplier,
        dry_base: p.dry_base,
        dry_allowed_length: p.dry_allowed_length,
        lz_penalty: p.lz_penalty,
    }
}

/// Checks the penalties. Each argument is the penalty as text where it is out
/// of range, and `None` where it is in range.
pub fn check_penalties(presence: Option<String>, frequency: Option<String>) -> (r: Result<
    (),
    ApiError,
>)
    ensures
        match r {
            Ok(()) => penalty_error(presence, frequency) is None,
            Err(e) => penalty_error(presence, frequency) == Some(e@),
        },
{
    match presence {
        Some(p) => {
            let mut m = own("presence_penalty must be between -2.0 and 2.0, got ");
            m.append(p.as_str());
            return Err(ApiError::plain(BAD_REQUEST, m));
        },
        None => {},
    }
    match frequency {
        Some(f) => {
            let mut m = own("frequency_penalty must be between -2.0 and 2.0, got ");
            m.append(f.as_str());
            Err(ApiError::plain(BAD_REQUEST, m))
        },
        None => Ok(()),
    }
}

/// The biases whose key is a token, in order.
pub open spec fn token_biases<F>(biases: Seq<(String, F)>) -> Seq<(u32, F)>
    decreases biases.len(),
{
    if biases.len() == 0 {
        Seq::empty()
    } else {
        let before = token_biases(biases.drop_last());
        match parse_unsigned(biases.last().0@, u32::MAX as nat) {
            Some(n) => before.push((n as u32, biases.last().1)),
            None => before,
        }
    }
}

/// Reads the tokens of biases. A key that is no token is left out.
pub fn read_biases<F: Copy>(biases: &Option<Vec<(String, F)>>) -> (r: Vec<(u32, F)>)
    ensures
        r@ == match *biases {
            Some(b) => token_biases(b@),
            None => Seq::empty(),
        },
{
    let mut out: Vec<(u32, F)> = Vec::new();
    let b = match biases {
        Some(b) => b,
        None => return out,
    };
    let mut i: usize = 0;
    assert(b@.take(0) =~= Seq::<(String, F)>::empty());
    while i < b.len()
        invariant
            i <= b@.len(),
            out@ == token_biases(b@.take(i as int)),
        decreases b@.len() - i,
    {
        assert(b@.take(i + 1).drop_last() =~= b@.take(i as int));
        match read_unsigned(&chars_of(b[i].0.as_str()), u32::MAX as u64) {
            Some(n) => {
                out.push((n as u32, b[i].1));
            },
            None => {},
        }
        i += 1;
    }
    assert(b@.take(i as int) =~= b@);
    out
}

/// The most tokens of an answer: while tools are active, no more than the
/// server allows.
pub fn cap_tokens(max_tokens: usize, tool_max_tokens: usize, tools_active: bool) -> (r: usize)
    ensures
        r == if tools_active && tool_max_tokens < max_tokens {
            tool_max_tokens
        } else {
            max_tokens
        },
{
    if tools_active && tool_max_tokens < max_tokens {
        tool_max_tokens
    } else {
        max_tokens
    }
}

/// The most alternatives that are reported for a token.
pub fn cap_logprobs(n: Option<u8>) -> (r: Option<u8>)
    ensures
        r == match n {
            Some(k) => Some(
                if k > 20 {
                    20u8
                } else {
                    k
                },
            ),
            None => None,
        },
{
    match n {
        Some(k) => if k > 20 {
            Some(20)
        } else {
            Some(k)
        },
        None => None,
    }
}

// ---------------------------------------------------------------------------
// Stop tokens
// ---------------------------------------------------------------------------
/// Ascending, without repetition.
pub open spec fn ascending(s: Seq<u32>) -> bool {
    forall|i: int, j: int| 0 <= i < j < s.len() ==> #[trigger] s[i] < #[trigger] s[j]
}

/// Whether a token is the whole of one of the encodings.
pub open spec fn is_single(encodings: Seq<Vec<u32>>, t: u32) -> bool {
    exists|i: int| 0 <= i < encodings.len() && (#[trigger] encodings[i])@ == seq![t]
}

/// Puts a token into an ascending list, unless it is there.
fn insert_token(v: &mut Vec<u32>, t: u32)
    requires
        ascending(old(v)@),
    ensures
        ascending(final(v)@),
        forall|x: u32| #[trigger] final(v)@.contains(x) <==> (old(v)@.contains(x) || x == t),
{
    let ghost before = v@;
    let mut p: usize = 0;
    while p < v.len() && v[p] < t
        invariant
            p <= v@.len(),
            before == v@,
            forall|i: int| 0 <= i < p ==> #[trigger] before[i] < t,
        decreases v@.len() - p,
    {
        p += 1;
    }
    if p < v.len() && v[p] == t {
        assert(before.contains(t)) by {
            assert(before[p as int] == t);
        }
        return;
    }
    v.insert(p, t);
    proof {
        let after = v@;
        assert(after =~= before.insert(p as int, t));
        assert forall|i: int, j: int| 0 <= i < j < after.len() implies #[trigger] after[i]
            < #[trigger] after[j] by {
            if j < p {
                assert(after[i] == before[i] && after[j] == before[j]);
            } else if j == p {
                assert(after[i] == before[i]);
            } else if i > p {
                assert(after[i] == before[i - 1] && after[j] == before[j - 1]);
            } else if i == p {
                assert(after[j] == before[j - 1]);
                if j - 1 > p {
                    assert(before[p as int] < before[j - 1]);
                }
            } else {
                assert(after[i] == before[i] && after[j] == before[j - 1]);
            }
        }
        assert forall|x: u32| #[trigger] after.contains(x) <==> (before.contains(x) || x == t) by {
            if after.contains(x) {
                let i = choose|i: int| 0 <= i < after.len() && after[i] == x;
                if i < p {
                    assert(before[i] == x);
                } else if i > p {
                    assert(before[i - 1] == x);
                }
            }
            if before.contains(x) {
                let i = choose|i: int| 0 <= i < before.len() && before[i] == x;
                if i < p {
                    assert(after[i] == x);
                } else {
                    assert(after[i + 1] == x);
                }
            }
            if x == t {
                assert(after[p as int] == x);
            }
        }
    }
}

/// The stop tokens: those of the stop strings that are one token. A stop
/// string of more tokens is looked for in the text.
pub fn tokenize_stop_sequences(encodings: &Vec<Vec<u32>>) -> (r: Vec<u32>)
    ensures
        ascending(r@),
        forall|t: u32| #[trigger] r@.contains(t) <==> is_single(encodings@, t),
{
    let mut out: Vec<u32> = Vec::new();
    let mut i: usize = 0;
    while i < encodings.len()
        invariant
            i <= encodings@.len(),
            ascending(out@),
            forall|t: u32| #[trigger]
                out@.contains(t) <==> is_single(encodings@.take(i as int), t),
        decreases encodings@.len() - i,
    {
        let ghost e0 = encodings@.take(i as int);
        let ghost e1 = encodings@.take(i + 1);
        let ghost held = out@;
        if encodings[i].len() == 1 {
            let t = encodings[i][0];
            insert_token(&mut out, t);
        }
        proof {
            assert forall|t: u32| #[trigger] out@.contains(t) <==> is_single(e1, t) by {
                assert(held.contains(t) <==> is_single(e0, t));
                if is_single(e1, t) {
                    let k = choose|k: int| 0 <= k < e1.len() && (#[trigger] e1[k])@ == seq![t];
                    if k < i {
                        assert(e0[k]@ == seq![t]);
                    } else {
                        assert(encodings@[i as int]@.len() == 1);
                        assert(encodings@[i as int]@[0] == t);
                    }
                }
                if is_single(e0, t) {
                    let k = choose|k: int| 0 <= k < e0.len() && (#[trigger] e0[k])@ == seq![t];
                    assert(e1[k]@ == seq![t]);
                }
                if encodings@[i as int]@.len() == 1 && encodings@[i as int]@[0] == t {
                    assert(encodings@[i as int]@ =~= seq![t]);
                    assert(e1[i as int]@ == seq![t]);
                }
            }
        }
        i += 1;
    }
    assert(encodings@.take(i as int) =~= encodings@);
    out
}

/// The stop tokens of a request: the tokens that stop strings are, ascending,
/// and while tools are active the token that ends a call.
pub open spec fn stops_fit(
    encodings: Seq<Vec<u32>>,
    call_end: Option<Vec<u32>>,
    tools_active: bool,
    r: Seq<u32>,
) -> bool {
    exists|s: Seq<u32>| #[trigger]
        ascending(s) && (forall|t: u32| #[trigger] s.contains(t) <==> is_single(encodings, t))
            && r == match call_end {
            Some(c) => if tools_active && c@.len() == 1 {
                s.push(c@[0])
            } else {
                s
            },
            None => s,
        }
}

/// The stop tokens of a request: those of its stop strings, and while tools
/// are active the token that ends a call, where it is one token.
pub fn stop_tokens(encodings: &Vec<Vec<u32>>, call_end: &Option<Vec<u32>>, tools_active: bool) -> (r:
    Vec<u32>)
    ensures
        stops_fit(encodings@, *call_end, tools_active, r@),
{
    let mut out = tokenize_stop_sequences(encodings);
    let ghost s = out@;
    match call_end {
        Some(c) => {
            if tools_active && c.len() == 1 {
                out.push(c[0]);
            }
        },
        None => {},
    }
    assert(ascending(s));
    out
}

// ---------------------------------------------------------------------------
// All of it
// ---------------------------------------------------------------------------
/// What the scheduler is told of an answer.
#[derive(Debug)]
pub struct SamplingSetup<F> {
    pub numbers: SamplingNumbers<F>,
    pub logit_bias: Vec<(u32, F)>,
    pub max_tokens: usize,
    pub stop_tokens: Vec<u32>,
    pub tool_choice_required: bool,
    pub grammar_spec: Option<GrammarSpec>,
    pub top_logprobs: Option<u8>,
}

/// What the server knows of a request when it is to be sampled.
#[derive(Debug)]
pub struct SamplingContext {
    /// The tokens of each stop string.
    pub encodings: Vec<Vec<u32>>,
    /// The tokens of the end of a call.
    pub call_end: Option<Vec<u32>>,
    /// The name of the model's tool-call parser.
    pub parser: Option<String>,
    /// The most tokens of an answer while tools are active.
    pub tool_max_tokens: usize,
    pub tools_active: bool,
    pub enable_thinking: bool,
    /// The presence penalty as text, where it is out of range.
    pub presence_out: Option<String>,
    /// The frequency penalty as text, where it is out of range.
    pub frequency_out: Option<String>,
}

/// What is wrong with the penalties, if anything. Each argument is the penalty
/// as text where it is out of range.
pub open spec fn penalty_error(presence: Option<String>, frequency: Option<String>) -> Option<
    ErrorView,
> {
    match (presence, frequency) {
        (Some(p), _) => Some(
            plain_error(BAD_REQUEST, "presence_penalty must be between -2.0 and 2.0, got "@ + p@),
        ),
        (None, Some(f)) => Some(
            plain_error(BAD_REQUEST, "frequency_penalty must be between -2.0 and 2.0, got "@ + f@),
        ),
        (None, None) => None,
    }
}

/// How a request is sampled and constrained.
pub open spec fn settles<F>(
    req: ChatCompletionRequest<F>,
    numbers: SamplingNumbers<F>,
    ctx: SamplingContext,
    s: SamplingSetup<F>,
) -> bool {
    &&& s.numbers == numbers
    &&& s.logit_bias@ == match req.logit_bias {
        Some(b) => token_biases(b@),
        None => Seq::empty(),
    }
    &&& s.max_tokens == if ctx.tools_active && ctx.tool_max_tokens < req.max_tokens {
        ctx.tool_max_tokens
    } else {
        req.max_tokens
    }
    &&& stops_fit(ctx.encodings@, ctx.call_end, ctx.tools_active, s.stop_tokens@)
    &&& s.tool_choice_required == call_required(req, opt_view(ctx.parser), ctx.tools_active)
    &&& grammar_fits(req, ctx.parser, ctx.tools_active, ctx.enable_thinking, s.grammar_spec)
    &&& s.top_logprobs == match req.top_logprobs {
        Some(k) => Some(
            if k > 20 {
                20u8
            } else {
                k
            },
        ),
        None => None,
    }
}

/// Settles how a request is sampled and constrained. A penalty out of range is
/// an error.
pub fn build_sampling<F: Copy>(
    req: ChatCompletionRequest<F>,
    numbers: SamplingNumbers<F>,
    ctx: SamplingContext,
) -> (r: Result<SamplingSetup<F>, ApiError>)
    ensures
        match r {
            Ok(s) => penalty_error(ctx.presence_out, ctx.frequency_out) is None && settles(
                req,
                numbers,
                ctx,
                s,
            ),
            Err(e) => penalty_error(ctx.presence_out, ctx.frequency_out) == Some(e@),
        },
{
    match check_penalties(ctx.presence_out, ctx.frequency_out) {
        Ok(()) => {},
        Err(e) => {
            return Err(e);
        },
    }
    let logit_bias = read_biases(&req.logit_bias);
    let max_tokens = cap_tokens(req.max_tokens, ctx.tool_max_tokens, ctx.tools_active);
    let stops = stop_tokens(&ctx.encodings, &ctx.call_end, ctx.tools_active);
    let required = tool_choice_required(&req, &ctx.parser, ctx.tools_active);
    let top_logprobs = cap_logprobs(req.top_logprobs);
    let grammar_spec = build_grammar(req, ctx.parser, ctx.tools_active, ctx.enable_thinking);
    Ok(
        SamplingSetup {
            numbers,
            logit_bias,
            max_tokens,
            stop_tokens: stops,
            tool_choice_required: required,
            grammar_spec,
            top_logprobs,
        },
    )
}

// ---------------------------------------------------------------------------
// Laws
// ---------------------------------------------------------------------------
/// A number that the client gives is the number that is sampled with.
pub proof fn law_client_numbers_win<F>(
    req: ChatCompletionRequest<F>,
    presets: SamplingPresets<F>,
    tools_active: bool,
    enable_thinking: bool,
)
    ensures
        ({
            let n = numbers_of(req, presets, tools_active, enable_thinking);
            &&& req.temperature matches Some(x) ==> n.temperature == x
            &&& req.top_k matches Some(x) ==> n.top_k == x
            &&& req.top_p matches Some(x) ==> n.top_p == x
            &&& req.top_n_sigma matches Some(x) ==> n.top_n_sigma == x
            &&& req.min_p matches Some(x) ==> n.min_p == x
            &&& req.repetition_penalty matches Some(x) ==> n.repetition_penalty == x
            &&& req.presence_penalty matches Some(x) ==> n.presence_penalty == x
            &&& req.frequency_penalty matches Some(x) ==> n.frequency_penalty == x
        }),
{
}

/// A number that the client leaves open is that of the preset for what the
/// answer is: with tools, with thinking, or plain.
pub proof fn law_presets_fill_in<F>(
    req: ChatCompletionRequest<F>,
    presets: SamplingPresets<F>,
    tools_active: bool,
    enable_thinking: bool,
    p: SamplingPreset<F>,
)
    requires
        tools_active ==> p == presets.tools,
        !tools_active && enable_thinking ==> p == presets.thinking_text,
        !tools_active && !enable_thinking ==> p == presets.non_thinking,
    ensures
        ({
            let n = numbers_of(req, presets, tools_active, enable_thinking);
            &&& req.temperature is None ==> n.temperature == p.temperature
            &&& req.top_k is None ==> n.top_k == p.top_k
            &&& req.top_p is None ==> n.top_p == p.top_p
            &&& req.top_n_sigma is None ==> n.top_n_sigma == presets.top_n_sigma
            &&& req.min_p is None ==> n.min_p == presets.min_p
            &&& req.repetition_penalty is None ==> n.repetition_penalty == p.repetition_penalty
            &&& req.presence_penalty is None ==> n.presence_penalty == p.presence_penalty
            &&& req.frequency_penalty is None ==> n.frequency_penalty == p.frequency_penalty
            &&& n.dry_multiplier == p.dry_multiplier
            &&& n.dry_base == p.dry_base
            &&& n.dry_allowed_length == p.dry_allowed_length
            &&& n.lz_penalty == p.lz_penalty
        }),
{
}

proof fn lemma_bias_kept<F>(biases: Seq<(String, F)>, i: int)
    requires
        0 <= i < biases.len(),
    ensures
        parse_unsigned(biases[i].0@, u32::MAX as nat) matches Some(n) ==> token_biases(
            biases,
        ).contains((n as u32, biases[i].1)),
    decreases biases.len(),
{
    let all = token_biases(biases);
    let before = token_biases(biases.drop_last());
    if i < biases.len() - 1 {
        lemma_bias_kept(biases.drop_last(), i);
        if let Some(n) = parse_unsigned(biases[i].0@, u32::MAX as nat) {
            let k = choose|k: int|
                0 <= k < before.len() && before[k] == (n as u32, biases[i].1);
            assert(all[k] == (n as u32, biases[i].1));
        }
    } else if let Some(n) = parse_unsigned(biases[i].0@, u32::MAX as nat) {
        assert(all[all.len() - 1] == (n as u32, biases[i].1));
    }
}

proof fn lemma_bias_asked<F>(biases: Seq<(String, F)>, b: (u32, F))
    requires
        token_biases(biases).contains(b),
    ensures
        exists|i: int|
            0 <= i < biases.len() && parse_unsigned(
                (#[trigger] biases[i]).0@,
                u32::MAX as nat,
            ) == Some(b.0 as nat) && biases[i].1 == b.1,
    decreases biases.len(),
{
    let all = token_biases(biases);
    let less = biases.drop_last();
    let before = token_biases(less);
    let k = choose|k: int| 0 <= k < all.len() && all[k] == b;
    if k < before.len() {
        assert(before[k] == b);
        lemma_bias_asked(less, b);
        let i = choose|i: int|
            0 <= i < less.len() && parse_unsigned((#[trigger] less[i]).0@, u32::MAX as nat) == Some(
                b.0 as nat,
            ) && less[i].1 == b.1;
        assert(biases[i] == less[i]);
    } else {
        assert(biases[biases.len() - 1] == biases.last());
    }
}

/// Every bias that the client gives for a token reaches the sampler with its
/// strength, and no other does.
pub proof fn law_biases_reach_the_sampler<F>(biases: Seq<(String, F)>, i: int, token: u32, b: (u32, F))
    ensures
        0 <= i < biases.len() && biases[i].0@ == dec(token as nat) ==> token_biases(
            biases,
        ).contains((token, biases[i].1)),
        token_biases(biases).contains(b) ==> exists|j: int|
            0 <= j < biases.len() && parse_unsigned(
                (#[trigger] biases[j]).0@,
                u32::MAX as nat,
            ) == Some(b.0 as nat) && biases[j].1 == b.1,
{
    if 0 <= i < biases.len() && biases[i].0@ == dec(token as nat) {
        law_numbers_read_back(token as nat, 0, u32::MAX as nat);
        lemma_bias_kept(biases, i);
    }
    if token_biases(biases).contains(b) {
        lemma_bias_asked(biases, b);
    }
}

/// An answer is no longer than the client asked for, and while tools are active
/// no longer than the server allows; nothing else shortens it. No more than
/// twenty alternatives are reported for a token, and as many as were asked for
/// where that is no more.
pub proof fn law_setup_keeps_to_the_limits<F>(
    req: ChatCompletionRequest<F>,
    numbers: SamplingNumbers<F>,
    ctx: SamplingContext,
    s: SamplingSetup<F>,
)
    requires
        settles(req, numbers, ctx, s),
    ensures
        s.numbers == numbers,
        s.max_tokens <= req.max_tokens,
        !ctx.tools_active ==> s.max_tokens == req.max_tokens,
        ctx.tools_active ==> s.max_tokens <= ctx.tool_max_tokens,
        s.max_tokens == req.max_tokens || s.max_tokens == ctx.tool_max_tokens,
        (s.top_logprobs is Some) == (req.top_logprobs is Some),
        s.top_logprobs matches Some(k) ==> k <= 20,
        req.top_logprobs matches Some(k) ==> (k <= 20 ==> s.top_logprobs == Some(k)),
        req.top_logprobs matches Some(k) && k > 20 ==> s.top_logprobs == Some(20u8),
        req.logit_bias is None ==> s.logit_bias@.len() == 0,
{
}

/// The model stops at each stop string that is one token and, while tools are
/// active, at the token that ends a call; and at no other token.
pub proof fn law_stop_tokens_are_those_asked_for<F>(
    req: ChatCompletionRequest<F>,
    numbers: SamplingNumbers<F>,
    ctx: SamplingContext,
    s: SamplingSetup<F>,
    i: int,
    t: u32,
)
    requires
        settles(req, numbers, ctx, s),
    ensures
        0 <= i < ctx.encodings@.len() && ctx.encodings@[i]@ == seq![t] ==> s.stop_tokens@.contains(
            t,
        ),
        ctx.tools_active && (ctx.call_end matches Some(c) && c@ == seq![t])
            ==> s.stop_tokens@.contains(t),
        s.stop_tokens@.contains(t) ==> is_single(ctx.encodings@, t) || (ctx.tools_active && (
        ctx.call_end matches Some(c) && c@.len() == 1 && c@[0] == t)),
{
    let r = s.stop_tokens@;
    let a = choose|a: Seq<u32>| #[trigger]
        ascending(a) && (forall|t: u32| #[trigger] a.contains(t) <==> is_single(
            ctx.encodings@,
            t,
        )) && r == match ctx.call_end {
            Some(c) => if ctx.tools_active && c@.len() == 1 {
                a.push(c@[0])
            } else {
                a
            },
            None => a,
        };
    if a.contains(t) {
        let k = choose|k: int| 0 <= k < a.len() && a[k] == t;
        assert(r[k] == t);
    }
    if r.contains(t) {
        let k = choose|k: int| 0 <= k < r.len() && r[k] == t;
        if k < a.len() {
            assert(a[k] == t);
        }
    }
    if ctx.tools_active && (ctx.call_end matches Some(c) && c@ == seq![t]) {
        assert(r[r.len() - 1] == t);
    }
}

proof fn lemma_callable(c: Option<ToolChoice>, tools: Seq<ToolDefinition>, t: ToolDefinition)
    ensures
        callable(c, tools).contains(t) <==> tools.contains(t) && may_call(c, t),
    decreases tools.len(),
{
    if tools.len() > 0 {
        let less = tools.drop_last();
        let before = callable(c, less);
        let all = callable(c, tools);
        lemma_callable(c, less, t);
        if before.contains(t) {
            let k = choose|k: int| 0 <= k < before.len() && before[k] == t;
            assert(all[k] == t);
        }
        if less.contains(t) {
            let k = choose|k: int| 0 <= k < less.len() && less[k] == t;
            assert(tools[k] == t);
        }
        if tools.contains(t) && !less.contains(t) {
            let k = choose|k: int| 0 <= k < tools.len() && tools[k] == t;
            if k < less.len() {
                assert(less[k] == t);
            }
        }
        if tools.last() == t {
            assert(tools[tools.len() - 1] == t);
            if may_call(c, t) {
                assert(all[all.len() - 1] == t);
            }
        }
        if all.contains(t) && !before.contains(t) {
            let k = choose|k: int| 0 <= k < all.len() && all[k] == t;
            if k < before.len() {
                assert(before[k] == t);
            }
        }
    }
}

/// While tools are active, and not ruled out in favour of a format, the grammar
/// holds the answer to calls of the tools that may be called: all of those that
/// the request declares, or the one that it names. It lets the model choose
/// whether to call exactly where no call is required.
pub proof fn law_grammar_holds_to_the_tools<F>(
    req: ChatCompletionRequest<F>,
    numbers: SamplingNumbers<F>,
    ctx: SamplingContext,
    s: SamplingSetup<F>,
    t: ToolDefinition,
)
    requires
        settles(req, numbers, ctx, s),
        ctx.tools_active,
        ctx.parser is Some,
        !(req.tool_choice matches Some(ToolChoice::Mode(m)) && m@ == "none"@),
    ensures
        s.grammar_spec matches Some(
            GrammarSpec::ToolCall { tools, parser, use_triggers, enable_thinking },
        ) && parser@ == ctx.parser->0@ && use_triggers == !s.tool_choice_required
            && enable_thinking == ctx.enable_thinking && (tools@.contains(t) <==> (
        req.tools matches Some(v) && v@.contains(t)) && (
        req.tool_choice matches Some(ToolChoice::Specific { function }) ==> t.function.name@
            == function@)),
{
    lemma_callable(req.tool_choice, tools_of(req.tools), t);
}

/// Without tools, an answer is held to the format that was asked for, and to
/// nothing where none was.
pub proof fn law_grammar_holds_to_the_format<F>(
    req: ChatCompletionRequest<F>,
    numbers: SamplingNumbers<F>,
    ctx: SamplingContext,
    s: SamplingSetup<F>,
)
    requires
        settles(req, numbers, ctx, s),
        !ctx.tools_active,
    ensures
        match req.response_format {
            None => s.grammar_spec is None,
            Some(ResponseFormat::Text) => s.grammar_spec is None,
            Some(ResponseFormat::JsonObject) => s.grammar_spec == Some(GrammarSpec::JsonObject),
            Some(ResponseFormat::JsonSchema { json_schema }) => s.grammar_spec == Some(
                GrammarSpec::JsonSchema { schema: json_schema.schema },
            ),
        },
        !s.tool_choice_required,
{
}

/// A call is required where the client requires one or names a tool, and where
/// the model's format leaves nothing else; otherwise, and without tools, none
/// is.
pub proof fn law_calls_are_required_where_asked<F>(
    req: ChatCompletionRequest<F>,
    parser: Option<Seq<char>>,
)
    ensures
        !call_required(req, parser, false),
        (req.tool_choice matches Some(ToolChoice::Mode(m)) && m@ == "required"@) ==> call_required(
            req,
            parser,
            true,
        ),
        (req.tool_choice matches Some(ToolChoice::Specific { .. })) ==> call_required(
            req,
            parser,
            true,
        ),
        parser == Some("minimax_xml"@) || parser == Some("bare_json"@) ==> call_required(
            req,
            parser,
            true,
        ),
        parser is None && req.tool_choice is None ==> !call_required(req, parser, true),
        parser is None && (req.tool_choice matches Some(ToolChoice::Mode(m)) && m@
            != "required"@) ==> !call_required(req, parser, true),
{
}

/// A penalty out of range is the client's error and is named with its value;
/// without one there is no error.
pub proof fn law_penalties_are_checked(presence: Option<String>, frequency: Option<String>)
    ensures
        penalty_error(presence, frequency) is None <==> presence is None && frequency is None,
        penalty_error(presence, frequency) matches Some(e) ==> e.status == 400,
        presence matches Some(p) ==> (penalty_error(presence, frequency) matches Some(e)
            && contains(e.message, p@) && contains(e.message, "presence_penalty"@)),
        presence is None ==> (frequency matches Some(f) ==> (penalty_error(
            presence,
            frequency,
        ) matches Some(e) && contains(e.message, f@) && contains(
            e.message,
            "frequency_penalty"@,
        ))),
{
    let a = "presence_penalty must be between -2.0 and 2.0, got "@;
    let b = "frequency_penalty must be between -2.0 and 2.0, got "@;
    reveal_strlit("presence_penalty must be between -2.0 and 2.0, got ");
    reveal_strlit("frequency_penalty must be between -2.0 and 2.0, got ");
    reveal_strlit("presence_penalty");
    reveal_strlit("frequency_penalty");
    if let Some(p) = presence {
        let m = a + p@;
        assert(m.subrange(a.len() as int, m.len() as int) =~= p@);
        assert(occurs_at(m, p@, a.len() as int));
        assert(m.subrange(0, 16) =~= "presence_penalty"@);
        assert(occurs_at(m, "presence_penalty"@, 0));
    } else if let Some(f) = frequency {
        let m = b + f@;
        assert(m.subrange(b.len() as int, m.len() as int) =~= f@);
        assert(occurs_at(m, f@, b.len() as int));
        assert(m.subrange(0, 17) =~= "frequency_penalty"@);
        assert(occurs_at(m, "frequency_penalty"@, 0));
    }
}

} // verus!

//! The chat completion request.
use vstd::prelude::*;
use crate::json::Json;
use crate::json::{get, unsigned_of, JsonView};
use crate::json_keys::key_repeats;
use crate::json_keys::repeats_key;
use crate::json_text::parse_json;
use crate::json_text::text_json;
use crate::messages::IncomingMessage;
use crate::text::{chars_of, own, same, CharSet};
use crate::text::views;
use crate::tools::ToolDefinition;
use crate::tools::opt_view;
use crate::trim::trim_chars;
use crate::trim::trim;

verus! {

/// What is asked of the last chunks of a stream.
#[derive(Debug, Clone, Copy, PartialEq, Eq, Structural)]
pub struct StreamOptions {
    /// Whether a chunk with the usage and no choice precedes the end.
    pub include_usage: bool,
    /// Accepted, without effect.
    pub include_obfuscation: bool,
}

impl Default for StreamOptions {
    fn default() -> (r: StreamOptions)
        ensures
            !r.include_usage,
            !r.include_obfuscation,
    {
        StreamOptions { include_usage: false, include_obfuscation: false }
    }
}

/// What the output must look like.
#[derive(Debug)]
pub enum ResponseFormat {
    /// Any text.
    Text,
    /// Any JSON.
    JsonObject,
    /// JSON that a schema admits.
    JsonSchema { json_schema: JsonSchemaSpec },
}

/// A schema for the output.
#[derive(Debug)]
pub struct JsonSchemaSpec {
    /// Its name.
    pub name: String,
    /// What it is for.
    pub description: Option<String>,
    /// The schema.
    pub schema: Json,
    /// Whether the output must keep to it strictly.
    pub strict: bool,
}

/// How much to think, as Anthropic's clients say it.
#[derive(Debug, Clone)]
pub struct ThinkingConfig {
    /// The most tokens that thinking may take.
    pub budget_tokens: Option<u32>,
    /// `enabled`, `disabled` or `adaptive`.
    pub thinking_type: Option<String>,
}

/// How much to think, as OpenAI's clients say it.
#[derive(Debug, Clone)]
pub struct ReasoningConfig {
    /// The effort.
    pub effort: Option<String>,
}

/// How much to think, as arguments of the chat template.
#[derive(Debug, Clone, Copy, PartialEq, Eq, Structural)]
pub struct ChatTemplateKwargs {
    /// Whether to think.
    pub enable_thinking: Option<bool>,
    /// The most tokens that thinking may take.
    pub thinking_budget: Option<u32>,
}

/// Which tool the model is to call.
#[derive(Debug, Clone)]
pub enum ToolChoice {
    /// `auto`, `none` or `required`.
    Mode(String),
    /// The function of this name.
    Specific { function: String },
}

/// The tokens that thinking may take where nothing else is said.
pub const DEFAULT_THINKING_BUDGET: u32 = 256;

/// The tokens of an answer where nothing else is said.
pub const DEFAULT_MAX_TOKENS: usize = 4096;

/// The choices of an answer where nothing else is said.
pub const DEFAULT_N: usize = 1;

/// A chat completion request. `F` is the type of its fractional numbers.
#[derive(Debug)]
pub struct ChatCompletionRequest<F> {
    pub model: String,
    pub messages: Vec<IncomingMessage>,
    pub max_tokens: usize,
    pub temperature: Option<F>,
    pub top_k: Option<u32>,
    pub top_p: Option<F>,
    pub top_n_sigma: Option<F>,
    pub min_p: Option<F>,
    pub repetition_penalty: Option<F>,
    pub presence_penalty: Option<F>,
    pub frequency_penalty: Option<F>,
    pub logit_bias: Option<Vec<(String, F)>>,
    pub stream: bool,
    pub enable_thinking: bool,
    pub thinking: Option<ThinkingConfig>,
    pub thinking_token_budget: Option<u32>,
    pub reasoning: Option<ReasoningConfig>,
    pub chat_template_kwargs: Option<ChatTemplateKwargs>,
    pub tools: Option<Vec<ToolDefinition>>,
    pub tool_choice: Option<ToolChoice>,
    pub stop: Vec<String>,
    pub response_format: Option<ResponseFormat>,
    pub min_tokens: usize,
    pub seed: Option<u64>,
    pub logprobs: Option<bool>,
    pub top_logprobs: Option<u8>,
    pub timeout: Option<F>,
    pub n: usize,
    pub stream_options: Option<StreamOptions>,
    pub parallel_tool_calls: Option<bool>,
    pub verbosity: Option<String>,
    pub service_tier: Option<String>,
    pub store: Option<bool>,
    pub metadata: Option<Vec<(String, String)>>,
    pub safety_identifier: Option<String>,
    pub prompt_cache_key: Option<String>,
    pub user: Option<String>,
    pub modalities: Option<Vec<String>>,
    pub audio: Option<Json>,
    pub prediction: Option<Json>,
    pub web_search_options: Option<Json>,
    pub reasoning_effort: Option<String>,
}

// ---------------------------------------------------------------------------
// Reading
// ---------------------------------------------------------------------------
/// An optional truth value: absent, `null` or a value.
pub open spec fn optional_bool(v: Option<JsonView>) -> Result<Option<bool>, ()> {
    match v {
        None => Ok(None),
        Some(JsonView::Null) => Ok(None),
        Some(JsonView::Bool(b)) => Ok(Some(b)),
        Some(_) => Err(()),
    }
}

/// An optional number that fits in 32 bits: absent, `null` or a value.
pub open spec fn optional_u32(v: Option<JsonView>) -> Result<Option<u32>, ()> {
    match v {
        None => Ok(None),
        Some(JsonView::Null) => Ok(None),
        Some(j) => match unsigned_of(j) {
            Some(n) => if n <= u32::MAX {
                Ok(Some(n as u32))
            } else {
                Err(())
            },
            None => Err(()),
        },
    }
}

/// The arguments from the two values that may be given for them.
pub open spec fn kwargs_from(think: Option<JsonView>, budget: Option<JsonView>) -> Option<
    ChatTemplateKwargs,
> {
    match (optional_bool(think), optional_u32(budget)) {
        (Ok(enable_thinking), Ok(thinking_budget)) => Some(
            ChatTemplateKwargs { enable_thinking, thinking_budget },
        ),
        _ => None,
    }
}

/// The arguments that a JSON value gives: an object with the two members, or
/// an array of their two values.
pub open spec fn kwargs_in(j: JsonView) -> Option<ChatTemplateKwargs> {
    match j {
        JsonView::Object(o) => kwargs_from(
            get(o, "enable_thinking"@),
            get(o, "thinking_budget"@),
        ),
        JsonView::Array(a) => if a.len() == 2 {
            kwargs_from(Some(a[0]), Some(a[1]))
        } else {
            None
        },
        _ => None,
    }
}

/// The arguments that a text gives: none where it names one of them twice.
pub open spec fn kwargs_of_text(s: Seq<char>) -> Option<ChatTemplateKwargs> {
    if trim(s, CharSet::White).len() == 0 {
        None
    } else if repeats_key(s, "enable_thinking"@) || repeats_key(s, "thinking_budget"@) {
        None
    } else {
        match text_json(s) {
            Some(j) => kwargs_in(j),
            None => None,
        }
    }
}

/// Computes [`kwargs_from`].
fn read_kwargs(think: Option<&Json>, budget: Option<&Json>) -> (r: Option<ChatTemplateKwargs>)
    ensures
        r == kwargs_from(view_of(think), view_of(budget)),
{
    let enable_thinking = match think {
        None => None,
        Some(Json::Null) => None,
        Some(Json::Bool(b)) => Some(*b),
        Some(_) => return None,
    };
    let thinking_budget = match budget {
        None => None,
        Some(Json::Null) => None,
        Some(j) => match j.as_u64() {
            Some(n) => {
                if n > u32::MAX as u64 {
                    return None;
                }
                Some(n as u32)
            },
            None => return None,
        },
    };
    Some(ChatTemplateKwargs { enable_thinking, thinking_budget })
}

/// The view of an optional value.
pub open spec fn view_of(o: Option<&Json>) -> Option<JsonView> {
    match o {
        Some(j) => Some(j@),
        None => None,
    }
}

impl ChatTemplateKwargs {
    /// Takes the arguments from a JSON value.
    pub fn from_value(j: &Json) -> (r: Option<ChatTemplateKwargs>)
        ensures
            r == kwargs_in(j@),
    {
        match j {
            Json::Object(o) => read_kwargs(
                crate::json::lookup(o, "enable_thinking"),
                crate::json::lookup(o, "thinking_budget"),
            ),
            Json::Array(a) => {
                proof {
                    crate::json::lemma_json_views(a@);
                }
                if a.len() == 2 {
                    read_kwargs(Some(&a[0]), Some(&a[1]))
                } else {
                    None
                }
            },
            _ => None,
        }
    }

    /// Takes the arguments from a JSON text; `None` where it is blank or does
    /// not give them.
    pub fn from_json(s: &str) -> (r: Option<ChatTemplateKwargs>)
        ensures
            r == kwargs_of_text(s@),
    {
        if trim_chars(&chars_of(s), CharSet::White).len() == 0 {
            return None;
        }
        if key_repeats(s, "enable_thinking") || key_repeats(s, "thinking_budget") {
            return None;
        }
        match parse_json(s) {
            Some(j) => ChatTemplateKwargs::from_value(&j),
            None => None,
        }
    }
}

/// The strings of a list of values, where all are strings.
pub open spec fn all_strings(a: Seq<JsonView>) -> Option<Seq<Seq<char>>>
    decreases a.len(),
{
    if a.len() == 0 {
        Some(Seq::empty())
    } else {
        match (all_strings(a.drop_last()), a.last()) {
            (Some(before), JsonView::Str(s)) => Some(before.push(s)),
            _ => None,
        }
    }
}

/// The stop strings that a value gives: none, one or a list.
pub open spec fn stop_in(j: JsonView) -> Option<Seq<Seq<char>>> {
    match j {
        JsonView::Null => Some(Seq::empty()),
        JsonView::Str(s) => Some(seq![s]),
        JsonView::Array(a) => all_strings(a),
        _ => None,
    }
}

proof fn lemma_all_strings_prefix(a: Seq<JsonView>, i: int)
    requires
        0 <= i <= a.len(),
        all_strings(a.take(i)) is None,
    ensures
        all_strings(a) is None,
    decreases a.len(),
{
    if i < a.len() {
        assert(a.drop_last().take(i) =~= a.take(i));
        lemma_all_strings_prefix(a.drop_last(), i);
    } else {
        assert(a.take(i) =~= a);
    }
}

/// Takes the stop strings from a JSON value: `null`, a string or an array of
/// strings.
pub fn deserialize_stop(j: &Json) -> (r: Option<Vec<String>>)
    ensures
        match r {
            Some(v) => stop_in(j@) == Some(views(v@)),
            None => stop_in(j@) is None,
        },
{
    let mut out: Vec<String> = Vec::new();
    assert(views(out@) =~= Seq::<Seq<char>>::empty());
    match j {
        Json::Null => Some(out),
        Json::Str(s) => {
            out.push(s.clone());
            assert(views(out@) =~= seq![s@]);
            Some(out)
        },
        Json::Array(a) => {
            let ghost av = crate::json::json_views(a@);
            proof {
                crate::json::lemma_json_views(a@);
                assert(av.take(0) =~= Seq::<JsonView>::empty());
            }
            let mut i: usize = 0;
            while i < a.len()
                invariant
                    i <= a@.len(),
                    av == crate::json::json_views(a@),
                    av.len() == a@.len(),
                    forall|k: int| 0 <= k < a@.len() ==> av[k] == (#[trigger] a@[k])@,
                    stop_in(j@) == all_strings(av),
                    all_strings(av.take(i as int)) == Some(views(out@)),
                decreases a@.len() - i,
            {
                proof {
                    assert(av.take(i + 1).drop_last() =~= av.take(i as int));
                    assert(av[i as int] == a@[i as int]@);
                }
                match a[i].as_str() {
                    Some(s) => {
                        let ghost before = out@;
                        out.push(s.clone());
                        assert(views(out@) =~= views(before).push(s@));
                    },
                    None => {
                        proof {
                            lemma_all_strings_prefix(av, i + 1);
                        }
                        return None;
                    },
                }
                i += 1;
            }
            assert(av.take(i as int) =~= av);
            Some(out)
        },
        _ => None,
    }
}

// ---------------------------------------------------------------------------
// Thinking
// ---------------------------------------------------------------------------
/// The tokens that an effort stands for.
pub open spec fn effort_budget(effort: Seq<char>) -> u32 {
    if effort == "none"@ {
        0
    } else if effort == "minimal"@ {
        64
    } else if effort == "low"@ {
        128
    } else if effort == "medium"@ {
        256
    } else if effort == "high"@ {
        512
    } else if effort == "xhigh"@ || effort == "max"@ {
        1024
    } else {
        DEFAULT_THINKING_BUDGET
    }
}

/// Computes [`effort_budget`].
fn budget_of_effort(effort: &str) -> (r: u32)
    ensures
        r == effort_budget(effort@),
{
    if same(effort, "none") {
        0
    } else if same(effort, "minimal") {
        64
    } else if same(effort, "low") {
        128
    } else if same(effort, "medium") {
        256
    } else if same(effort, "high") {
        512
    } else if same(effort, "xhigh") || same(effort, "max") {
        1024
    } else {
        DEFAULT_THINKING_BUDGET
    }
}

/// What Anthropic's object asks for: thinking with its budget, or with the
/// default where it has none, unless it says `disabled` or the budget is zero.
pub open spec fn config_thinking(tc: ThinkingConfig) -> (bool, Option<u32>) {
    if opt_view(tc.thinking_type) == Some("disabled"@) {
        (false, Some(0))
    } else {
        match tc.budget_tokens {
            Some(b) => (b > 0, Some(b)),
            None => (true, Some(DEFAULT_THINKING_BUDGET)),
        }
    }
}

/// What the template arguments ask for, where they ask for anything.
pub open spec fn kwargs_thinking(kw: ChatTemplateKwargs) -> Option<(bool, Option<u32>)> {
    match (kw.thinking_budget, kw.enable_thinking) {
        (Some(b), _) => Some((b > 0, Some(b))),
        (None, Some(true)) => Some((true, Some(DEFAULT_THINKING_BUDGET))),
        (None, Some(false)) => Some((false, Some(0))),
        (None, None) => None,
    }
}

impl<F> ChatCompletionRequest<F> {
    /// What the client asks for, where it asks for anything: the first of
    /// Anthropic's object, the plain budget, the effort, the template
    /// arguments, and the plain flag.
    pub open spec fn asked_thinking(self) -> Option<(bool, Option<u32>)> {
        match self.thinking {
            Some(tc) => Some(config_thinking(tc)),
            None => match self.thinking_token_budget {
                Some(b) => Some((b > 0, Some(b))),
                None => match self.effort() {
                    Some(e) => Some((effort_budget(e) > 0, Some(effort_budget(e)))),
                    None => match self.kwargs_asked() {
                        Some(t) => Some(t),
                        None => if self.enable_thinking {
                            Some((true, Some(DEFAULT_THINKING_BUDGET)))
                        } else {
                            None
                        },
                    },
                },
            },
        }
    }

    /// The effort, where one is given: that of the reasoning object, or else
    /// the shorthand.
    pub open spec fn effort(self) -> Option<Seq<char>> {
        match self.reasoning {
            Some(rc) => if rc.effort is Some {
                opt_view(rc.effort)
            } else {
                opt_view(self.reasoning_effort)
            },
            None => opt_view(self.reasoning_effort),
        }
    }

    /// Computes [`Self::effort`].
    fn effort_given(&self) -> (r: Option<&String>)
        ensures
            match r {
                Some(e) => self.effort() == Some(e@),
                None => self.effort() is None,
            },
    {
        if let Some(rc) = &self.reasoning {
            if let Some(e) = &rc.effort {
                return Some(e);
            }
        }
        match &self.reasoning_effort {
            Some(e) => Some(e),
            None => None,
        }
    }

    /// What the template arguments ask for, where there are any.
    pub open spec fn kwargs_asked(self) -> Option<(bool, Option<u32>)> {
        match self.chat_template_kwargs {
            Some(kw) => kwargs_thinking(kw),
            None => None,
        }
    }

    /// Whether to think, and for how many tokens: what the client asks for, or
    /// what the model does by default.
    pub open spec fn thinking_choice(self, model_default: bool) -> (bool, Option<u32>) {
        match self.asked_thinking() {
            Some(t) => t,
            None => if model_default {
                (true, Some(DEFAULT_THINKING_BUDGET))
            } else {
                (false, None)
            },
        }
    }

    /// Whether the client says anything about thinking.
    pub fn thinking_explicitly_requested(&self) -> (r: bool)
        ensures
            r == (self.asked_thinking() is Some),
    {
        if self.thinking.is_some() || self.thinking_token_budget.is_some() {
            return true;
        }
        if self.effort_given().is_some() {
            return true;
        }
        match &self.chat_template_kwargs {
            Some(kw) => {
                if kw.thinking_budget.is_some() || kw.enable_thinking.is_some() {
                    return true;
                }
            },
            None => {},
        }
        self.enable_thinking
    }

    /// Computes [`Self::thinking_choice`].
    pub fn resolve_thinking(&self, model_default: bool) -> (r: (bool, Option<u32>))
        ensures
            r == self.thinking_choice(model_default),
    {
        match &self.thinking {
            Some(tc) => {
                match &tc.thinking_type {
                    Some(t) => {
                        if same(t.as_str(), "disabled") {
                            return (false, Some(0));
                        }
                    },
                    None => {},
                }
                match tc.budget_tokens {
                    Some(b) => {
                        return (b > 0, Some(b));
                    },
                    None => {
                        return (true, Some(DEFAULT_THINKING_BUDGET));
                    },
                }
            },
            None => {},
        }
        match self.thinking_token_budget {
            Some(b) => {
                return (b > 0, Some(b));
            },
            None => {},
        }
        match self.effort_given() {
            Some(e) => {
                let b = budget_of_effort(e.as_str());
                return (b > 0, Some(b));
            },
            None => {},
        }
        match &self.chat_template_kwargs {
            Some(kw) => {
                match kw.thinking_budget {
                    Some(b) => {
                        return (b > 0, Some(b));
                    },
                    None => {},
                }
                match kw.enable_thinking {
                    Some(on) => {
                        let b: u32 = if on {
                            DEFAULT_THINKING_BUDGET
                        } else {
                            0
                        };
                        return (on, Some(b));
                    },
                    None => {},
                }
            },
            None => {},
        }
        if self.enable_thinking || model_default {
            (true, Some(DEFAULT_THINKING_BUDGET))
        } else {
            (false, None)
        }
    }

    /// A request of these messages in which all else is left open.
    pub fn of_messages(model: &str, messages: Vec<IncomingMessage>) -> (r: ChatCompletionRequest<F>)
        ensures
            r.model@ == model@,
            r.messages == messages,
            r.max_tokens == DEFAULT_MAX_TOKENS,
            r.n == DEFAULT_N,
            r.min_tokens == 0,
            !r.stream,
            r.stop@.len() == 0,
            r.tools is None,
            r.tool_choice is None,
            r.response_format is None,
            r.store is None,
            r.asked_thinking() is None,
    {
        ChatCompletionRequest {
            model: own(model),
            messages,
            max_tokens: DEFAULT_MAX_TOKENS,
            temperature: None,
            top_k: None,
            top_p: None,
            top_n_sigma: None,
            min_p: None,
            repetition_penalty: None,
            presence_penalty: None,
            frequency_penalty: None,
            logit_bias: None,
            stream: false,
            enable_thinking: false,
            thinking: None,
            thinking_token_budget: None,
            reasoning: None,
            chat_template_kwargs: None,
            tools: None,
            tool_choice: None,
            stop: Vec::new(),
            response_format: None,
            min_tokens: 0,
            seed: None,
            logprobs: None,
            top_logprobs: None,
            timeout: None,
            n: DEFAULT_N,
            stream_options: None,
            parallel_tool_calls: None,
            verbosity: None,
            service_tier: None,
            store: None,
            metadata: None,
            safety_identifier: None,
            prompt_cache_key: None,
            user: None,
            modalities: None,
            audio: None,
            prediction: None,
            web_search_options: None,
            reasoning_effort: None,
        }
    }
}

/// What the client asks for wins over what the model does by default.
pub proof fn law_client_wins<F>(req: ChatCompletionRequest<F>, a: bool, b: bool)
    requires
        req.asked_thinking() is Some,
    ensures
        req.thinking_choice(a) == req.thinking_choice(b),
{
}

/// Where the client says nothing, the model's default decides.
pub proof fn law_default_decides<F>(req: ChatCompletionRequest<F>, model_default: bool)
    requires
        req.asked_thinking() is None,
    ensures
        req.thinking_choice(model_default).0 == model_default,
{
}

/// Each way to ask for thinking is heard, where none before it is used: the
/// tokens that a client names are the tokens it gets, zero of them is a no,
/// and a plain yes stands for the default.
pub proof fn law_every_way_to_ask_is_heard<F>(req: ChatCompletionRequest<F>, model_default: bool)
    ensures
        ({
            let (on, budget) = req.thinking_choice(model_default);
            &&& req.thinking matches Some(tc) ==> if opt_view(tc.thinking_type) == Some(
                "disabled"@,
            ) {
                !on && budget == Some(0u32)
            } else {
                match tc.budget_tokens {
                    Some(b) => budget == Some(b) && (on <==> b > 0),
                    None => on && budget == Some(DEFAULT_THINKING_BUDGET),
                }
            }
            &&& req.thinking is None ==> {
                &&& req.thinking_token_budget matches Some(b) ==> budget == Some(b) && (on <==> b
                    > 0)
                &&& req.thinking_token_budget is None ==> {
                    &&& req.reasoning matches Some(rc) ==> (rc.effort matches Some(e) ==> budget
                        == Some(effort_budget(e@)) && (on <==> effort_budget(e@) > 0))
                    &&& req.reasoning is None ==> (req.reasoning_effort matches Some(e) ==> budget
                        == Some(effort_budget(e@)) && (on <==> effort_budget(e@) > 0))
                    &&& req.reasoning is None && req.reasoning_effort is None ==> {
                        &&& req.chat_template_kwargs matches Some(kw) ==> {
                            &&& kw.thinking_budget matches Some(b) ==> budget == Some(b) && (on
                                <==> b > 0)
                            &&& kw.thinking_budget is None ==> (kw.enable_thinking matches Some(x)
                                ==> on == x && (x ==> budget == Some(DEFAULT_THINKING_BUDGET)))
                        }
                        &&& req.chat_template_kwargs is None ==> {
                            &&& on == (req.enable_thinking || model_default)
                            &&& on ==> budget == Some(DEFAULT_THINKING_BUDGET)
                        }
                    }
                }
            }
        }),
{
}

/// The more effort is asked for, the more tokens it stands for: each word for
/// it gives twice what the one below it gives, and none at all gives none.
pub proof fn law_more_effort_is_more_thinking()
    ensures
        effort_budget("none"@) == 0,
        0 < effort_budget("minimal"@) < DEFAULT_THINKING_BUDGET,
        effort_budget("low"@) == 2 * effort_budget("minimal"@),
        effort_budget("medium"@) == 2 * effort_budget("low"@),
        effort_budget("high"@) == 2 * effort_budget("medium"@),
        effort_budget("xhigh"@) == 2 * effort_budget("high"@),
        effort_budget("max"@) == effort_budget("xhigh"@),
        effort_budget("minimal"@) == 64,
{
    reveal_strlit("none");
    reveal_strlit("minimal");
    reveal_strlit("low");
    reveal_strlit("medium");
    reveal_strlit("high");
    reveal_strlit("xhigh");
    reveal_strlit("max");
    assert("none"@[0] != "high"@[0]);
    assert("none"@.len() == 4);
    assert("high"@.len() == 4);
    assert("low"@[0] != "max"@[0]);
    assert("low"@.len() == 3);
    assert("max"@.len() == 3);
    assert("medium"@.len() == 6);
    assert("xhigh"@.len() == 5);
    assert("minimal"@.len() == 7);
}

/// The stop strings are those that were given, each in its place; a value that
/// is no text spoils a list.
pub proof fn law_stop_strings_are_read(j: JsonView, s: Seq<char>, a: Seq<JsonView>, i: int)
    ensures
        j == JsonView::Null ==> (stop_in(j) matches Some(l) && l.len() == 0),
        j == JsonView::Str(s) ==> stop_in(j) == Some(seq![s]),
        j == JsonView::Array(a) && 0 <= i < a.len() ==> match stop_in(j) {
            Some(l) => l.len() == a.len() && a[i] == JsonView::Str(l[i]),
            None => exists|k: int| 0 <= k < a.len() && !((#[trigger] a[k]) is Str),
        },
        j is Bool || j is Number || j is Object ==> stop_in(j) is None,
{
    lemma_all_strings(a, i);
}

proof fn lemma_all_strings(a: Seq<JsonView>, i: int)
    ensures
        match all_strings(a) {
            Some(l) => l.len() == a.len() && (0 <= i < a.len() ==> a[i] == JsonView::Str(l[i])),
            None => exists|k: int| 0 <= k < a.len() && !((#[trigger] a[k]) is Str),
        },
    decreases a.len(),
{
    if a.len() > 0 {
        let less = a.drop_last();
        lemma_all_strings(less, i);
        if all_strings(less) is None {
            let k = choose|k: int| 0 <= k < less.len() && !((#[trigger] less[k]) is Str);
            assert(a[k] == less[k]);
        } else if !(a.last() is Str) {
            assert(!(a[a.len() - 1] is Str));
        } else if 0 <= i < less.len() {
            assert(a[i] == less[i]);
        }
    }
}

/// Template arguments are read from the members that name them: a switch is the
/// truth value given, a budget the number given, and what is not there is left
/// open.
pub proof fn law_template_arguments_are_read(o: Seq<(Seq<char>, JsonView)>)
    ensures
        kwargs_in(JsonView::Object(o)) matches Some(kw) ==> {
            &&& get(o, "enable_thinking"@) matches Some(JsonView::Bool(b)) ==> kw.enable_thinking
                == Some(b)
            &&& get(o, "enable_thinking"@) is None ==> kw.enable_thinking is None
            &&& get(o, "thinking_budget"@) matches Some(v) ==> (unsigned_of(v) matches Some(n) ==> (
            kw.thinking_budget matches Some(b) && b == n))
            &&& get(o, "thinking_budget"@) is None ==> kw.thinking_budget is None
        },
        get(o, "enable_thinking"@) is None && get(o, "thinking_budget"@) is None ==> kwargs_in(
            JsonView::Object(o),
        ) is Some,
        get(o, "enable_thinking"@) matches Some(JsonView::Str(_)) ==> kwargs_in(
            JsonView::Object(o),
        ) is None,
        get(o, "thinking_budget"@) matches Some(JsonView::Str(_)) ==> kwargs_in(
            JsonView::Object(o),
        ) is None,
{
}

/// Template arguments are read from a text that holds them, unless it is blank
/// or names one of them twice.
pub proof fn law_template_arguments_are_read_from_text(s: Seq<char>, j: JsonView)
    ensures
        trim(s, CharSet::White).len() == 0 ==> kwargs_of_text(s) is None,
        repeats_key(s, "enable_thinking"@) || repeats_key(s, "thinking_budget"@)
            ==> kwargs_of_text(s) is None,
        text_json(s) is None ==> kwargs_of_text(s) is None,
        text_json(s) == Some(j) && trim(s, CharSet::White).len() > 0 && !repeats_key(
            s,
            "enable_thinking"@,
        ) && !repeats_key(s, "thinking_budget"@) ==> kwargs_of_text(s) == kwargs_in(j),
{
}

/// Template arguments may come as a pair: the switch first, the budget second.
/// A list of another length gives none.
pub proof fn law_template_arguments_are_read_from_a_pair(a: Seq<JsonView>, b: bool, n: u64)
    ensures
        a.len() != 2 ==> kwargs_in(JsonView::Array(a)) is None,
        n <= u32::MAX && a == seq![
            JsonView::Bool(b),
            JsonView::Number(crate::json::NumberView::Unsigned(n)),
        ] ==> (kwargs_in(JsonView::Array(a)) matches Some(kw) && kw.enable_thinking == Some(b)
            && kw.thinking_budget == Some(n as u32)),
{
}

} // verus!

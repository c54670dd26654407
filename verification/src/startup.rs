//! What the server settles before it serves.
use vstd::prelude::*;
use crate::defaults::default_for;
use crate::defaults::{default_text, text_toml};
use crate::json::Json;
use crate::json::{json_views, lemma_json_views, member_of, unsigned_of, JsonView};
use crate::json_text::parse_json;
use crate::json_text::text_json;
use crate::responses::text_at;
use crate::responses::text_field;
use crate::text::{chars_of, own, same, string_of_all, CharSet};
use crate::text::{opt_str, views};
use crate::tools::opt_view;
use crate::trim::{lines_of, trim_chars};
use crate::trim::{char_views, lines, trim};

verus! {

// ---------------------------------------------------------------------------
// The generation config
// ---------------------------------------------------------------------------
/// A number of 64 bits, cut to 32.
pub open spec fn cut(n: u64) -> u32 {
    n as u32
}

/// The token numbers among some values.
pub open spec fn token_ids(a: Seq<JsonView>) -> Seq<u32>
    decreases a.len(),
{
    if a.len() == 0 {
        Seq::empty()
    } else {
        let head = token_ids(a.drop_last());
        match unsigned_of(a.last()) {
            Some(n) => head.push(cut(n)),
            None => head,
        }
    }
}

/// The tokens that end an answer, by the generation config, else the one that
/// the model's config gives.
pub open spec fn eos_tokens(config: Option<JsonView>, fallback: u32) -> Seq<u32> {
    let id = match config {
        Some(c) => member_of(c, "eos_token_id"@),
        None => None,
    };
    match id {
        Some(JsonView::Array(a)) => {
            if token_ids(a).len() > 0 {
                token_ids(a)
            } else {
                seq![fallback]
            }
        },
        Some(JsonView::Number(n)) => match unsigned_of(JsonView::Number(n)) {
            Some(u) => seq![cut(u)],
            None => seq![0u32],
        },
        _ => seq![fallback],
    }
}

/// What the text of a config holds, where there is one.
pub open spec fn config_of(text: Option<Seq<char>>) -> Option<JsonView> {
    match text {
        Some(s) => text_json(s),
        None => None,
    }
}

/// Computes [`token_ids`].
fn read_ids(a: &Vec<Json>) -> (r: Vec<u32>)
    ensures
        r@ == token_ids(json_views(a@)),
{
    let ghost av = json_views(a@);
    let mut ids: Vec<u32> = Vec::new();
    let mut i: usize = 0;
    proof {
        lemma_json_views(a@);
    }
    while i < a.len()
        invariant
            i <= a@.len(),
            av == json_views(a@),
            av.len() == a@.len(),
            forall|k: int| 0 <= k < a@.len() ==> av[k] == (#[trigger] a@[k])@,
            ids@ == token_ids(av.take(i as int)),
        decreases a@.len() - i,
    {
        assert(av[i as int] == a@[i as int]@);
        assert(av.take(i + 1).drop_last() =~= av.take(i as int));
        match a[i].as_u64() {
            Some(n) => {
                ids.push(
                    #[verifier::truncate]
                    (n as u32),
                );
            },
            None => {},
        }
        i += 1;
    }
    assert(av.take(i as int) =~= av);
    ids
}

/// Reads the tokens that end an answer out of the generation config's text.
pub fn load_eos_tokens(gen_config: Option<&str>, fallback: u32) -> (r: Vec<u32>)
    ensures
        r@ == eos_tokens(config_of(opt_str(gen_config)), fallback),
        r@.len() > 0,
{
    let config = match gen_config {
        Some(text) => parse_json(text),
        None => None,
    };
    let mut one: Vec<u32> = Vec::new();
    match config {
        Some(c) => match c.get("eos_token_id") {
            Some(Json::Array(a)) => {
                let ids = read_ids(a);
                if ids.len() > 0 {
                    return ids;
                }
                one.push(fallback);
            },
            Some(j) => match j {
                Json::Number(_) => match j.as_u64() {
                    Some(n) => {
                        one.push(
                            #[verifier::truncate]
                            (n as u32),
                        );
                    },
                    None => {
                        one.push(0);
                    },
                },
                _ => {
                    one.push(fallback);
                },
            },
            None => {
                one.push(fallback);
            },
        },
        None => {
            one.push(fallback);
        },
    }
    assert(one@ =~= eos_tokens(config_of(opt_str(gen_config)), fallback));
    one
}

/// The number of candidates where neither the client nor the generation config
/// says one.
pub const DEFAULT_TOP_K: u32 = 20;

/// Reads the default number of candidates out of the generation config's text.
pub fn load_top_k(gen_config: Option<&str>) -> (r: u32)
    ensures
        r == match config_of(opt_str(gen_config)) {
            Some(c) => match member_of(c, "top_k"@) {
                Some(j) => match unsigned_of(j) {
                    Some(n) => cut(n),
                    None => DEFAULT_TOP_K,
                },
                None => DEFAULT_TOP_K,
            },
            None => DEFAULT_TOP_K,
        },
{
    let config = match gen_config {
        Some(text) => parse_json(text),
        None => None,
    };
    match config {
        Some(c) => match c.get("top_k") {
            Some(j) => match j.as_u64() {
                Some(n) => {
                    #[verifier::truncate]
                    (n as u32)
                },
                None => DEFAULT_TOP_K,
            },
            None => DEFAULT_TOP_K,
        },
        None => DEFAULT_TOP_K,
    }
}

// ---------------------------------------------------------------------------
// Names
// ---------------------------------------------------------------------------
/// The name under which a model is served: what the operator gave, the model's
/// identifier, the name in its config, the name of its directory, or a name
/// for none of these.
pub open spec fn model_name(
    given: Option<Seq<char>>,
    model: Option<Seq<char>>,
    config: Option<JsonView>,
    directory: Option<Seq<char>>,
) -> Seq<char> {
    let configured = match config {
        Some(c) => text_field(c, "_name_or_path"@),
        None => None,
    };
    match (given, model, configured, directory) {
        (Some(s), _, _, _) => s,
        (None, Some(s), _, _) => s,
        (None, None, Some(s), _) => s,
        (None, None, None, Some(s)) => s,
        (None, None, None, None) => "atlas"@,
    }
}

/// Computes [`model_name`] from the text of the model's config.
pub fn resolve_model_name(
    given: Option<&str>,
    model: Option<&str>,
    config_json: &str,
    directory: Option<&str>,
) -> (r: String)
    ensures
        r@ == model_name(
            opt_str(given),
            opt_str(model),
            text_json(config_json@),
            opt_str(directory),
        ),
{
    match given {
        Some(s) => {
            return own(s);
        },
        None => {},
    }
    match model {
        Some(s) => {
            return own(s);
        },
        None => {},
    }
    match parse_json(config_json) {
        Some(c) => match text_at(&c, "_name_or_path") {
            Some(s) => {
                return own(s.as_str());
            },
            None => {},
        },
        None => {},
    }
    match directory {
        Some(s) => own(s),
        None => own("atlas"),
    }
}

// ---------------------------------------------------------------------------
// Parsers
// ---------------------------------------------------------------------------
/// Who named the format of tool calls.
#[derive(Debug, Clone, Copy, PartialEq, Eq, Structural)]
pub enum FormatSource {
    /// The operator.
    Operator,
    /// The model's own settings.
    Model,
    /// The table of defaults.
    Table,
}

/// The format of tool calls, with who named it: the operator's, the model's,
/// or the default of the model type.
pub open spec fn format_choice(
    operator: Option<Seq<char>>,
    model: Seq<char>,
    table: Option<Seq<char>>,
) -> Option<(FormatSource, Seq<char>)> {
    match operator {
        Some(s) => Some((FormatSource::Operator, s)),
        None => {
            if model.len() > 0 {
                Some((FormatSource::Model, model))
            } else {
                match table {
                    Some(s) => Some((FormatSource::Table, s)),
                    None => None,
                }
            }
        },
    }
}

/// Chooses the format of tool calls.
pub fn choose_tool_format(
    operator: Option<&str>,
    model: &str,
    defaults: &str,
    model_type: &str,
) -> (r: Option<(FormatSource, String)>)
    ensures
        ({
            let want = format_choice(
                opt_str(operator),
                model@,
                default_text(text_toml(defaults@), "model_type"@, model_type@),
            );
            match r {
                Some((source, name)) => want == Some((source, name@)),
                None => want is None,
            }
        }),
{
    match operator {
        Some(s) => Some((FormatSource::Operator, own(s))),
        None => {
            if !model.is_empty() {
                Some((FormatSource::Model, own(model)))
            } else {
                match default_for(defaults, "model_type", model_type) {
                    Some(s) => Some((FormatSource::Table, s)),
                    None => None,
                }
            }
        },
    }
}

/// Settles the format of tool calls, once it is known whether its name is one.
/// A name that is none is an error where the operator or the model gave it,
/// and no format where the table of defaults did.
pub fn resolve_tool_call_parser(
    choice: Option<(FormatSource, String)>,
    unknown: Option<String>,
) -> (r: Result<Option<String>, String>)
    ensures
        match choice {
            None => r matches Ok(None),
            Some((source, name)) => match unknown {
                None => r matches Ok(Some(n)) && n@ == name@,
                Some(e) => if source == FormatSource::Table {
                    r matches Ok(None)
                } else {
                    r matches Err(m) && m@ == e@
                },
            },
        },
{
    match choice {
        None => Ok(None),
        Some((source, name)) => match unknown {
            None => Ok(Some(name)),
            Some(e) => {
                if source == FormatSource::Table {
                    Ok(None)
                } else {
                    Err(e)
                }
            },
        },
    }
}

/// The format of thinking.
#[derive(Debug)]
pub enum ReasoningChoice {
    /// The default of the model type.
    Table(String),
    /// The usual one of models that think.
    Usual,
    /// The model does not think.
    Absent,
}

/// Chooses the format of thinking: the default of the model type, where that
/// is a format, else the usual one where the model thinks. `known` says
/// whether the default is a format.
pub fn choose_reasoning_format(
    defaults: &str,
    model_type: &str,
    known: bool,
    supports_thinking: bool,
) -> (r: ReasoningChoice)
    ensures
        ({
            let table = default_text(text_toml(defaults@), "reasoning"@, model_type@);
            match r {
                ReasoningChoice::Table(s) => known && table == Some(s@),
                ReasoningChoice::Usual => !(known && table is Some) && supports_thinking,
                ReasoningChoice::Absent => !(known && table is Some) && !supports_thinking,
            }
        }),
{
    match default_for(defaults, "reasoning", model_type) {
        Some(s) => {
            if known {
                return ReasoningChoice::Table(s);
            }
        },
        None => {},
    }
    if supports_thinking {
        ReasoningChoice::Usual
    } else {
        ReasoningChoice::Absent
    }
}

// ---------------------------------------------------------------------------
// Tokens with a meaning
// ---------------------------------------------------------------------------
/// The tags of a tool call.
pub open spec fn call_tags(format: Option<Seq<char>>) -> (Seq<char>, Seq<char>) {
    if format == Some("minimax_xml"@) {
        ("<minimax:tool_call>"@, "</minimax:tool_call>"@)
    } else {
        ("<tool_call>"@, "</tool_call>"@)
    }
}

/// The words that a model begins second thoughts with.
pub open spec fn reflection_words() -> Seq<Seq<char>> {
    seq![
        "wait"@,
        "Wait"@,
        "however"@,
        "However"@,
        "actually"@,
        "Actually"@,
        "hmm"@,
        "Hmm"@,
    ]
}

/// The texts whose tokens have a meaning: the opening of thinking, the opening
/// of a turn, the tags of a tool call, and the words of second thoughts.
pub open spec fn special_texts(format: Option<Seq<char>>) -> Seq<Seq<char>> {
    seq!["<think>"@, "<|im_start|>"@, call_tags(format).0, call_tags(format).1]
        + reflection_words()
}

/// Puts a text behind others.
fn push_text(out: &mut Vec<String>, s: &str)
    ensures
        views(final(out)@) == views(old(out)@).push(s@),
{
    let ghost before = out@;
    out.push(own(s));
    assert(views(out@) =~= views(before).push(s@));
}

/// Computes [`special_texts`]: what the tokenizer is to encode.
pub fn texts_to_encode(format: Option<&str>) -> (r: Vec<String>)
    ensures
        views(r@) == special_texts(opt_str(format)),
{
    let minimax = match format {
        Some(s) => same(s, "minimax_xml"),
        None => false,
    };
    let mut out: Vec<String> = Vec::new();
    assert(views(out@) =~= Seq::empty());
    push_text(&mut out, "<think>");
    push_text(&mut out, "<|im_start|>");
    if minimax {
        push_text(&mut out, "<minimax:tool_call>");
        push_text(&mut out, "</minimax:tool_call>");
    } else {
        push_text(&mut out, "<tool_call>");
        push_text(&mut out, "</tool_call>");
    }
    push_text(&mut out, "wait");
    push_text(&mut out, "Wait");
    push_text(&mut out, "however");
    push_text(&mut out, "However");
    push_text(&mut out, "actually");
    push_text(&mut out, "Actually");
    push_text(&mut out, "hmm");
    push_text(&mut out, "Hmm");
    assert(views(out@) =~= special_texts(opt_str(format)));
    out
}

/// The name of the tool-call format whose tags are sought: the operator's, or
/// the default of the model type.
pub fn tag_format(operator: Option<&str>, defaults: &str, model_type: &str) -> (r: Option<String>)
    ensures
        opt_view(r) == match opt_str(operator) {
            Some(s) => Some(s),
            None => default_text(text_toml(defaults@), "model_type"@, model_type@),
        },
{
    match operator {
        Some(s) => Some(own(s)),
        None => default_for(defaults, "model_type", model_type),
    }
}

/// What came of encoding a text: its tokens, where it could be encoded.
pub type Encoded = Option<Vec<u32>>;

/// The token of a text that is one token.
pub open spec fn single(e: Encoded) -> Option<u32> {
    match e {
        Some(ids) => if ids@.len() == 1 {
            Some(ids@[0])
        } else {
            None
        },
        None => None,
    }
}

/// Computes [`single`].
fn single_of(e: &Encoded) -> (r: Option<u32>)
    ensures
        r == single(*e),
{
    match e {
        Some(ids) => if ids.len() == 1 {
            Some(ids[0])
        } else {
            None
        },
        None => None,
    }
}

/// The tokens of those texts that are one token.
pub open spec fn singles(s: Seq<Encoded>) -> Seq<u32>
    decreases s.len(),
{
    if s.len() == 0 {
        Seq::empty()
    } else {
        let head = singles(s.drop_last());
        match single(s.last()) {
            Some(t) => head.push(t),
            None => head,
        }
    }
}

/// The tokens with a meaning.
#[derive(Debug, Clone)]
pub struct TokenizerRuntime {
    /// Opens thinking.
    pub think_start_token: Option<u32>,
    /// Begin second thoughts.
    pub reflection_suppress_ids: Vec<u32>,
    /// Opens a tool call.
    pub tool_call_start_token: Option<u32>,
    /// Closes a tool call.
    pub tool_call_end_token: Option<u32>,
}

/// The tokens that end an answer, with the one that opens a turn among them.
pub open spec fn with_turn_start(eos: Seq<u32>, start: Option<u32>) -> Seq<u32> {
    match start {
        Some(t) => if eos.contains(t) {
            eos
        } else {
            eos.push(t)
        },
        None => eos,
    }
}

/// Says whether a token is in a list.
fn holds(v: &Vec<u32>, t: u32) -> (r: bool)
    ensures
        r == v@.contains(t),
{
    let mut i: usize = 0;
    while i < v.len()
        invariant
            i <= v@.len(),
            forall|k: int| 0 <= k < i ==> #[trigger] v@[k] != t,
        decreases v@.len() - i,
    {
        if v[i] == t {
            return true;
        }
        i += 1;
    }
    false
}

/// Computes [`singles`] of a list from a place on.
fn singles_from(encoded: &Vec<Encoded>, from: usize) -> (r: Vec<u32>)
    requires
        from <= encoded@.len(),
    ensures
        r@ == singles(encoded@.skip(from as int)),
{
    let ghost s = encoded@.skip(from as int);
    let mut out: Vec<u32> = Vec::new();
    let mut i: usize = from;
    while i < encoded.len()
        invariant
            from <= i <= encoded@.len(),
            s == encoded@.skip(from as int),
            out@ == singles(s.take(i - from)),
        decreases encoded@.len() - i,
    {
        assert(s.take(i - from + 1).drop_last() =~= s.take(i - from));
        match single_of(&encoded[i]) {
            Some(t) => {
                out.push(t);
            },
            None => {},
        }
        i += 1;
    }
    assert(s.take(i - from) =~= s);
    out
}

/// The number of texts whose tokens have a meaning and that stand before the
/// words of second thoughts.
pub const TAG_TEXTS: usize = 4;

/// Reads the tokens with a meaning out of the encoded texts, and makes the
/// token that opens a turn one that ends an answer.
pub fn resolve_tokenizer_runtime(encoded: &Vec<Encoded>, eos: &mut Vec<u32>) -> (r: TokenizerRuntime)
    requires
        encoded@.len() >= TAG_TEXTS,
    ensures
        r.think_start_token == single(encoded@[0]),
        final(eos)@ == with_turn_start(old(eos)@, single(encoded@[1])),
        r.tool_call_start_token == single(encoded@[2]),
        r.tool_call_end_token == single(encoded@[3]),
        r.reflection_suppress_ids@ == singles(encoded@.skip(TAG_TEXTS as int)),
{
    match single_of(&encoded[1]) {
        Some(t) => {
            if !holds(eos, t) {
                eos.push(t);
            }
        },
        None => {},
    }
    TokenizerRuntime {
        think_start_token: single_of(&encoded[0]),
        reflection_suppress_ids: singles_from(encoded, TAG_TEXTS),
        tool_call_start_token: single_of(&encoded[2]),
        tool_call_end_token: single_of(&encoded[3]),
    }
}

/// Whatever ended an answer before still does, in its place, and nothing is
/// added but the token that opens a turn.
pub proof fn law_eos_only_grows(eos: Seq<u32>, start: Option<u32>)
    ensures
        eos.is_prefix_of(with_turn_start(eos, start)),
        forall|t: u32| #[trigger]
            with_turn_start(eos, start).contains(t) ==> eos.contains(t) || Some(t) == start,
        start matches Some(t) ==> with_turn_start(eos, start).contains(t),
        with_turn_start(with_turn_start(eos, start), start) == with_turn_start(eos, start),
{
    let after = with_turn_start(eos, start);
    assert(eos =~= after.subrange(0, eos.len() as int));
    match start {
        Some(t) => {
            if !eos.contains(t) {
                assert(after[eos.len() as int] == t);
            }
        },
        None => {},
    }
    assert forall|t: u32| #[trigger] after.contains(t) implies eos.contains(t) || Some(t)
        == start by {
        let i = choose|i: int| 0 <= i < after.len() && after[i] == t;
        if i < eos.len() {
            assert(eos[i] == t);
        }
    }
}

// ---------------------------------------------------------------------------
// Logging
// ---------------------------------------------------------------------------
/// The filter of the log: the operator's or `info`, and the dump target on or
/// off.
pub open spec fn log_filter(base: Option<Seq<char>>, dump: bool) -> Seq<char> {
    (match base {
        Some(s) => s,
        None => "info"@,
    }) + ","@ + (if dump {
        "atlas::dump=info"@
    } else {
        "atlas::dump=off"@
    })
}

/// Computes [`log_filter`].
pub fn build_log_filter(base: Option<&str>, dump: bool) -> (r: String)
    ensures
        r@ == log_filter(opt_str(base), dump),
{
    let mut f = match base {
        Some(s) => own(s),
        None => own("info"),
    };
    f.append(",");
    if dump {
        f.append("atlas::dump=info");
    } else {
        f.append("atlas::dump=off");
    }
    f
}

/// Says whether dumps are mirrored to a file: `-` and `/dev/stderr` stand for
/// the log alone.
pub fn mirrors_to_file(dump: Option<&str>) -> (r: bool)
    ensures
        r == match opt_str(dump) {
            Some(s) => s != "-"@ && s != "/dev/stderr"@,
            None => false,
        },
{
    match dump {
        Some(s) => !same(s, "-") && !same(s, "/dev/stderr"),
        None => false,
    }
}

// ---------------------------------------------------------------------------
// Authentication
// ---------------------------------------------------------------------------
/// Where the accepted tokens come from.
#[derive(Debug)]
pub enum AuthSource {
    /// No request is asked for a token. The flag says that tokens were given
    /// for nothing.
    Off { unused_tokens: bool },
    /// A file.
    File(String),
    /// The command line.
    Inline(String),
}

/// Whether a line of a tokens file holds a token: it is neither blank nor a
/// comment.
pub open spec fn is_token_line(line: Seq<char>) -> bool {
    let t = trim(line, CharSet::White);
    t.len() > 0 && t[0] != '#'
}

/// The tokens that the first `n` lines of a tokens file hold, one per line.
pub open spec fn line_tokens(ls: Seq<Seq<char>>, n: nat) -> Seq<Seq<char>>
    decreases n,
{
    if n == 0 || n > ls.len() {
        Seq::empty()
    } else {
        let before = line_tokens(ls, (n - 1) as nat);
        if is_token_line(ls[n - 1]) {
            before.push(trim(ls[n - 1], CharSet::White))
        } else {
            before
        }
    }
}

/// Reads the tokens off the text of a tokens file.
pub fn read_token_lines(text: &str) -> (r: Vec<String>)
    ensures
        views(r@) == line_tokens(lines(text@), lines(text@).len()),
{
    let ls = lines_of(&chars_of(text));
    let ghost lv = lines(text@);
    let mut r: Vec<String> = Vec::new();
    let mut i: usize = 0;
    assert(views(r@) =~= line_tokens(lv, 0));
    while i < ls.len()
        invariant
            i <= ls@.len(),
            char_views(ls@) == lv,
            views(r@) == line_tokens(lv, i as nat),
        decreases ls@.len() - i,
    {
        assert(lv[i as int] == ls@[i as int]@);
        let t = trim_chars(&ls[i], CharSet::White);
        if t.len() > 0 && t[0] != '#' {
            let ghost before = r@;
            let token = string_of_all(&t);
            r.push(token);
            assert(views(r@) =~= views(before).push(token@));
        }
        i += 1;
    }
    assert(lv.len() == ls@.len());
    r
}

/// Says where the accepted tokens come from. Of a file and a token on the
/// command line, one at most is given.
pub fn build_auth_config(
    require_auth: bool,
    tokens_file: Option<&str>,
    token: Option<&str>,
) -> (r: Result<AuthSource, String>)
    requires
        require_auth ==> !(tokens_file is Some && token is Some),
    ensures
        match r {
            Ok(AuthSource::Off { unused_tokens }) => !require_auth && unused_tokens == (
            tokens_file is Some || token is Some),
            Ok(AuthSource::File(path)) => require_auth && opt_str(tokens_file) == Some(path@),
            Ok(AuthSource::Inline(t)) => require_auth && tokens_file is None && opt_str(token)
                == Some(t@),
            Err(e) => require_auth && tokens_file is None && token is None && e@
                == "--require-auth was set but neither --auth-tokens-file nor --auth-token was supplied. Pick one (a tokens file is preferred)."@,
        },
{
    if !require_auth {
        return Ok(AuthSource::Off { unused_tokens: tokens_file.is_some() || token.is_some() });
    }
    match tokens_file {
        Some(path) => Ok(AuthSource::File(own(path))),
        None => match token {
            Some(t) => Ok(AuthSource::Inline(own(t))),
            None => Err(
                own(
                    "--require-auth was set but neither --auth-tokens-file nor --auth-token was supplied. Pick one (a tokens file is preferred).",
                ),
            ),
        },
    }
}

// ---------------------------------------------------------------------------
// The scheduler
// ---------------------------------------------------------------------------
/// What the operator asks of the scheduler.
#[derive(Debug, Clone, Copy)]
pub struct ServeChoices {
    /// Decode speculatively with the model's own proposer.
    pub speculative: bool,
    /// Decode speculatively by skipping layers.
    pub self_speculative: bool,
    /// Decode speculatively by n-grams.
    pub ngram_speculative: bool,
    /// Decode speculatively with a block drafter.
    pub dflash: bool,
    /// The tokens of a drafted block.
    pub dflash_gamma: usize,
    /// The drafter's window; 0 for no window.
    pub dflash_window_size: usize,
    /// The drafts of a step.
    pub num_drafts: usize,
    /// The sequences of a batch.
    pub max_batch_size: usize,
    /// The tokens of calibration; 0 for what the model says.
    pub fp8_kv_calibration_tokens: usize,
    /// The tokens of thinking, where the operator says.
    pub max_thinking_budget: Option<u32>,
}

/// What the model says and has.
#[derive(Debug, Clone, Copy)]
pub struct ServeModel {
    /// The ranks that share the model.
    pub world_size: usize,
    /// The model has a proposer.
    pub has_proposer: bool,
    /// The model can skip layers.
    pub has_self_speculative: bool,
    /// The tokens of calibration.
    pub fp8_kv_calibration_tokens: usize,
    /// The tokens of thinking.
    pub max_thinking_budget: u32,
}

/// How answers are drafted.
#[derive(Debug, Clone, Copy, PartialEq, Eq, Structural)]
pub enum Drafting {
    /// By the block drafter.
    Blocks,
    /// By n-grams.
    Ngrams,
    /// By skipping layers.
    Layers,
    /// By the model's proposer.
    Proposer,
    /// Not, though there is a proposer.
    Unused,
    /// Not.
    Absent,
}

/// What the scheduler is started with.
#[derive(Debug, Clone, Copy, PartialEq, Eq, Structural)]
pub struct ServePlan {
    pub max_batch_size: usize,
    pub use_speculative: bool,
    pub use_self_spec: bool,
    pub use_ngram_spec: bool,
    pub num_drafts: usize,
    pub drafting: Drafting,
    pub window_size: Option<usize>,
    pub fp8_kv_calibration_tokens: usize,
    pub max_thinking_budget: u32,
}

/// How answers are drafted: the first way that is in use.
pub open spec fn drafting(c: ServeChoices, m: ServeModel) -> Drafting {
    if c.dflash {
        Drafting::Blocks
    } else if c.ngram_speculative {
        Drafting::Ngrams
    } else if c.self_speculative && m.has_self_speculative {
        Drafting::Layers
    } else if c.speculative && m.has_proposer {
        Drafting::Proposer
    } else if m.has_proposer {
        Drafting::Unused
    } else {
        Drafting::Absent
    }
}

/// What the scheduler is started with. Ranks that share a model serve one
/// sequence at a time; a block drafter drafts one token less than its block,
/// and one at least; the operator's numbers come before the model's.
pub open spec fn serve_plan(c: ServeChoices, m: ServeModel) -> ServePlan {
    ServePlan {
        max_batch_size: if m.world_size > 1 {
            1
        } else {
            c.max_batch_size
        },
        use_speculative: (c.speculative || c.dflash) && m.has_proposer,
        use_self_spec: c.self_speculative && m.has_self_speculative,
        use_ngram_spec: c.ngram_speculative,
        num_drafts: if c.dflash {
            if c.dflash_gamma >= 2 {
                (c.dflash_gamma - 1) as usize
            } else {
                1
            }
        } else {
            c.num_drafts
        },
        drafting: drafting(c, m),
        window_size: if c.dflash_window_size > 0 {
            Some(c.dflash_window_size)
        } else {
            None
        },
        fp8_kv_calibration_tokens: if c.fp8_kv_calibration_tokens > 0 {
            c.fp8_kv_calibration_tokens
        } else {
            m.fp8_kv_calibration_tokens
        },
        max_thinking_budget: match c.max_thinking_budget {
            Some(n) => n,
            None => m.max_thinking_budget,
        },
    }
}

/// Computes [`serve_plan`].
pub fn plan_serving(c: ServeChoices, m: ServeModel) -> (r: ServePlan)
    ensures
        r == serve_plan(c, m),
{
    let use_speculative = (c.speculative || c.dflash) && m.has_proposer;
    let use_self_spec = c.self_speculative && m.has_self_speculative;
    let num_drafts: usize = if c.dflash {
        if c.dflash_gamma >= 2 {
            c.dflash_gamma - 1
        } else {
            1
        }
    } else {
        c.num_drafts
    };
    let way = if c.dflash {
        Drafting::Blocks
    } else if c.ngram_speculative {
        Drafting::Ngrams
    } else if use_self_spec {
        Drafting::Layers
    } else if use_speculative {
        Drafting::Proposer
    } else if m.has_proposer {
        Drafting::Unused
    } else {
        Drafting::Absent
    };
    ServePlan {
        max_batch_size: if m.world_size > 1 {
            1
        } else {
            c.max_batch_size
        },
        use_speculative,
        use_self_spec,
        use_ngram_spec: c.ngram_speculative,
        num_drafts,
        drafting: way,
        window_size: if c.dflash_window_size > 0 {
            Some(c.dflash_window_size)
        } else {
            None
        },
        fp8_kv_calibration_tokens: if c.fp8_kv_calibration_tokens > 0 {
            c.fp8_kv_calibration_tokens
        } else {
            m.fp8_kv_calibration_tokens
        },
        max_thinking_budget: match c.max_thinking_budget {
            Some(n) => n,
            None => m.max_thinking_budget,
        },
    }
}

/// In which order requests are served.
#[derive(Debug, Clone, Copy, PartialEq, Eq, Structural)]
pub enum Policy {
    /// First come, first served.
    Fifo,
    /// By deadlines.
    Slai,
}

/// Reads the name of a policy.
pub fn read_policy(name: &str) -> (r: Result<Policy, String>)
    ensures
        match r {
            Ok(Policy::Fifo) => name@ == "fifo"@,
            Ok(Policy::Slai) => name@ == "slai"@ && name@ != "fifo"@,
            Err(e) => name@ != "fifo"@ && name@ != "slai"@ && e@ == "Unknown scheduling policy '"@
                + name@ + "'. Supported: fifo, slai"@,
        },
{
    if same(name, "fifo") {
        Ok(Policy::Fifo)
    } else if same(name, "slai") {
        Ok(Policy::Slai)
    } else {
        let mut m = own("Unknown scheduling policy '");
        m.append(name);
        m.append("'. Supported: fifo, slai");
        Err(m)
    }
}

/// The bytes of so many mebibytes, where they can be counted.
pub fn reserve_bytes(mebibytes: usize) -> (r: Option<usize>)
    ensures
        match r {
            Some(n) => n == mebibytes * 1048576,
            None => mebibytes * 1048576 > usize::MAX,
        },
{
    mebibytes.checked_mul(1048576)
}

proof fn lemma_token_ids(a: Seq<JsonView>, i: int)
    requires
        forall|k: int| 0 <= k < a.len() ==> unsigned_of(#[trigger] a[k]) is Some,
    ensures
        token_ids(a).len() == a.len(),
        0 <= i < a.len() && unsigned_of(a[i])->0 <= u32::MAX ==> token_ids(a)[i] == unsigned_of(
            a[i],
        )->0,
    decreases a.len(),
{
    if a.len() > 0 {
        let less = a.drop_last();
        assert forall|k: int| 0 <= k < less.len() implies unsigned_of(#[trigger] less[k]) is Some by {
            assert(less[k] == a[k]);
        }
        lemma_token_ids(less, i);
        assert(unsigned_of(a[a.len() - 1]) is Some);
        if 0 <= i < less.len() {
            assert(less[i] == a[i]);
        }
    }
}

/// The tokens that end an answer are those that the model names, every one in
/// its place; where it names none, the fallback.
pub proof fn law_end_tokens_are_the_models(
    config: JsonView,
    a: Seq<JsonView>,
    n: u64,
    fallback: u32,
    i: int,
)
    ensures
        eos_tokens(None, fallback) == seq![fallback],
        member_of(config, "eos_token_id"@) is None ==> eos_tokens(Some(config), fallback)
            == seq![fallback],
        member_of(config, "eos_token_id"@) == Some(JsonView::Array(a)) && a.len() == 0
            ==> eos_tokens(Some(config), fallback) == seq![fallback],
        member_of(config, "eos_token_id"@) == Some(
            JsonView::Number(crate::json::NumberView::Unsigned(n)),
        ) && n <= u32::MAX ==> eos_tokens(Some(config), fallback) == seq![n as u32],
        member_of(config, "eos_token_id"@) == Some(JsonView::Array(a)) && a.len() > 0 && (forall|
            k: int,
        |
            0 <= k < a.len() ==> unsigned_of(#[trigger] a[k]) is Some) ==> eos_tokens(
            Some(config),
            fallback,
        ).len() == a.len() && (0 <= i < a.len() && unsigned_of(a[i])->0 <= u32::MAX ==> eos_tokens(
            Some(config),
            fallback,
        )[i] == unsigned_of(a[i])->0),
{
    if forall|k: int| 0 <= k < a.len() ==> unsigned_of(#[trigger] a[k]) is Some {
        lemma_token_ids(a, i);
    }
}

/// The model goes by the name that it was given, or else by that of its
/// repository, of its configuration or of its directory, in this order.
pub proof fn law_model_names_rank(
    a: Seq<char>,
    b: Option<Seq<char>>,
    c: Option<JsonView>,
    d: Option<Seq<char>>,
)
    ensures
        model_name(Some(a), b, c, d) == a,
        model_name(None, Some(a), c, d) == a,
        c matches Some(j) ==> (text_field(j, "_name_or_path"@) == Some(a) ==> model_name(
            None,
            None,
            c,
            d,
        ) == a),
        model_name(None, None, None, Some(a)) == a,
        model_name(None, None, None, None) == "atlas"@,
{
}

/// The format of tool calls is the operator's, or else the model's, or else that
/// of the table; where none names one there is none.
pub proof fn law_tool_formats_rank(
    a: Seq<char>,
    model: Seq<char>,
    table: Option<Seq<char>>,
)
    ensures
        format_choice(Some(a), model, table) == Some((FormatSource::Operator, a)),
        model.len() > 0 ==> format_choice(None, model, table) == Some(
            (FormatSource::Model, model),
        ),
        model.len() == 0 ==> (table matches Some(t) ==> format_choice(None, model, table) == Some(
            (FormatSource::Table, t),
        )),
        model.len() == 0 && table is None ==> format_choice(None, model, table) is None,
{
}

/// The texts that are looked up in the vocabulary hold the tags of the format
/// that is in use.
pub proof fn law_texts_hold_the_tags(format: Option<Seq<char>>)
    ensures
        special_texts(format).len() == TAG_TEXTS + reflection_words().len(),
        special_texts(format)[0] == "<think>"@,
        special_texts(format)[1] == "<|im_start|>"@,
        format == Some("minimax_xml"@) ==> special_texts(format)[2] == "<minimax:tool_call>"@
            && special_texts(format)[3] == "</minimax:tool_call>"@,
        format != Some("minimax_xml"@) ==> special_texts(format)[2] == "<tool_call>"@
            && special_texts(format)[3] == "</tool_call>"@,
        forall|i: int|
            0 <= i < reflection_words().len() ==> special_texts(format)[TAG_TEXTS + i]
                == #[trigger] reflection_words()[i],
{
}

/// A text that is one token gives that token, and every such token is among the
/// suppressed ones; a text of several, or of none, gives none.
pub proof fn law_single_tokens_are_kept(s: Seq<Encoded>, i: int)
    requires
        0 <= i < s.len(),
    ensures
        s[i] matches Some(ids) ==> (ids@.len() == 1 ==> single(s[i]) == Some(ids@[0]) && singles(
            s,
        ).contains(ids@[0])),
        s[i] matches Some(ids) ==> (ids@.len() != 1 ==> single(s[i]) is None),
        s[i] is None ==> single(s[i]) is None,
        singles(s).len() <= s.len(),
    decreases s.len(),
{
    let less = s.drop_last();
    let before = singles(less);
    let all = singles(s);
    if i < less.len() {
        assert(less[i] == s[i]);
        law_single_tokens_are_kept(less, i);
        if let Some(t) = single(s[i]) {
            let k = choose|k: int| 0 <= k < before.len() && before[k] == t;
            assert(all[k] == t);
        }
    } else {
        if less.len() > 0 {
            law_single_tokens_are_kept(less, 0);
        }
        if let Some(t) = single(s[i]) {
            assert(all[before.len() as int] == t);
        }
    }
}

/// Every line of a tokens file that is neither blank nor a comment is a token,
/// without the white space round it, and nothing else is.
pub proof fn law_token_lines_are_read(ls: Seq<Seq<char>>, n: nat, i: int, t: Seq<char>)
    requires
        n <= ls.len(),
        0 <= i < n,
    ensures
        trim(ls[i], CharSet::White).len() > 0 && trim(ls[i], CharSet::White)[0] != '#'
            ==> line_tokens(ls, n).contains(trim(ls[i], CharSet::White)),
        line_tokens(ls, n).contains(t) ==> t.len() > 0 && t[0] != '#',
    decreases n,
{
    let less = (n - 1) as nat;
    let before = line_tokens(ls, less);
    let all = line_tokens(ls, n);
    let x = trim(ls[i], CharSet::White);
    if i < less {
        law_token_lines_are_read(ls, less, i, t);
        if is_token_line(ls[i]) {
            let k = choose|k: int| 0 <= k < before.len() && before[k] == x;
            assert(all[k] == x);
        }
    } else {
        if less > 0 {
            law_token_lines_are_read(ls, less, 0, t);
        }
        if is_token_line(ls[i]) {
            assert(all[before.len() as int] == x);
        }
    }
    if all.contains(t) {
        let k = choose|k: int| 0 <= k < all.len() && all[k] == t;
        if k < before.len() {
            assert(before[k] == t);
        }
    }
}

/// The log keeps the filter that it was given.
pub proof fn law_log_filter_is_kept(base: Seq<char>)
    ensures
        log_filter(Some(base), true) == base + ",atlas::dump=info"@,
        log_filter(Some(base), false) == base + ",atlas::dump=off"@,
        log_filter(None, false) == "info,atlas::dump=off"@,
{
    reveal_strlit(",");
    reveal_strlit("info");
    reveal_strlit("atlas::dump=info");
    reveal_strlit("atlas::dump=off");
    reveal_strlit(",atlas::dump=info");
    reveal_strlit(",atlas::dump=off");
    reveal_strlit("info,atlas::dump=off");
    assert(log_filter(Some(base), true) =~= base + ",atlas::dump=info"@);
    assert(log_filter(Some(base), false) =~= base + ",atlas::dump=off"@);
    assert(log_filter(None, false) =~= "info,atlas::dump=off"@);
}

/// What the operator chose holds, where the model can do it: the sizes that it
/// set, and the ways to draft that the model has. A model shared among ranks
/// takes one sequence at a time.
pub proof fn law_operator_decides(c: ServeChoices, m: ServeModel)
    ensures
        ({
            let p = serve_plan(c, m);
            &&& m.world_size <= 1 ==> p.max_batch_size == c.max_batch_size
            &&& m.world_size > 1 ==> p.max_batch_size == 1
            &&& c.max_thinking_budget matches Some(n) ==> p.max_thinking_budget == n
            &&& c.max_thinking_budget is None ==> p.max_thinking_budget == m.max_thinking_budget
            &&& c.fp8_kv_calibration_tokens > 0 ==> p.fp8_kv_calibration_tokens
                == c.fp8_kv_calibration_tokens
            &&& c.fp8_kv_calibration_tokens == 0 ==> p.fp8_kv_calibration_tokens
                == m.fp8_kv_calibration_tokens
            &&& c.dflash_window_size > 0 ==> p.window_size == Some(c.dflash_window_size)
            &&& c.dflash_window_size == 0 ==> p.window_size is None
            &&& !c.dflash ==> p.num_drafts == c.num_drafts
            &&& c.dflash && c.dflash_gamma >= 2 ==> p.num_drafts + 1 == c.dflash_gamma
            &&& c.dflash ==> p.num_drafts >= 1
            &&& p.use_speculative ==> m.has_proposer && (c.speculative || c.dflash)
            &&& (c.speculative || c.dflash) && m.has_proposer ==> p.use_speculative
            &&& p.use_self_spec <==> c.self_speculative && m.has_self_speculative
            &&& p.use_ngram_spec == c.ngram_speculative
            &&& p.drafting == Drafting::Blocks <==> c.dflash
            &&& p.drafting == Drafting::Ngrams <==> !c.dflash && c.ngram_speculative
            &&& p.drafting == Drafting::Layers ==> p.use_self_spec
            &&& p.drafting == Drafting::Proposer ==> p.use_speculative
            &&& p.drafting == Drafting::Absent ==> !p.use_speculative && !p.use_self_spec
                && !p.use_ngram_spec
        }),
{
}

/// What a configuration says is what its text holds.
pub proof fn law_configuration_is_its_text(s: Seq<char>)
    ensures
        config_of(Some(s)) == text_json(s),
        config_of(None) is None,
{
}

} // verus!

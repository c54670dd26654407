//! The chat completion that is answered at once.
use vstd::prelude::*;
use crate::api_error::{ApiError, INTERNAL_SERVER_ERROR, SERVICE_UNAVAILABLE};
use crate::api_error::plain_error;
use crate::chat_stream::wire::refund;
use crate::chat_stream::wire::{refund_due, UsageView};
use crate::openai::chat_response::{assemble_chat_response, build_usage, ChatCompletionResponse};
use crate::openai::chat_response::{CompletionTokensDetails, PromptTokensDetails};
use crate::openai::types::{Annotation, ChatChoice, ChatMessage};
use crate::openai::types::{opt_annotations, ChatMessageView, CitationView};
use crate::text::{chars_of, find_chars, own, string_of, string_of_all, CharSet};
use crate::text::{contains, find, find_from, lemma_find_from, occurs_at, views};
use crate::tools::ToolCall;
use crate::tools::{call_views, opt_view, ToolCallView};
use crate::trim::{part, push_part, replace_chars, trim_chars, trim_start_chars};
use crate::trim::{
    all_in, law_replacing, law_trimming_takes_the_ends, replace, trim, trim_start,
};

verus! {

// ---------------------------------------------------------------------------
// Stop strings
// ---------------------------------------------------------------------------
/// Where the first of the stop strings stands in a text: the first of the first
/// `n` of them that are not empty. The length of the text where none does.
pub open spec fn stop_place(text: Seq<char>, stops: Seq<Seq<char>>, n: nat) -> int
    decreases n,
{
    if n == 0 || n > stops.len() {
        text.len() as int
    } else {
        let before = stop_place(text, stops, (n - 1) as nat);
        match find(text, stops[n - 1]) {
            Some(p) if stops[n - 1].len() > 0 && p < before => p,
            _ => before,
        }
    }
}

/// The text up to the first stop string.
pub open spec fn before_stop(text: Seq<char>, stops: Seq<Seq<char>>) -> Seq<char> {
    text.take(stop_place(text, stops, stops.len()))
}

/// Cuts the text off at the first stop string.
pub fn strip_stop_sequences(text: String, stops: &Vec<String>) -> (r: String)
    ensures
        r@ == before_stop(text@, views(stops@)),
{
    let ghost sv = views(stops@);
    let chars = chars_of(text.as_str());
    let mut at: usize = chars.len();
    let mut i: usize = 0;
    while i < stops.len()
        invariant
            i <= stops@.len(),
            sv == views(stops@),
            chars@ == text@,
            at <= text@.len(),
            at == stop_place(text@, sv, i as nat),
        decreases stops@.len() - i,
    {
        let stop = chars_of(stops[i].as_str());
        assert(sv[i as int] == stop@);
        if stop.len() > 0 {
            match find_chars(&chars, &stop, 0) {
                Some(p) => {
                    if p < at {
                        at = p;
                    }
                },
                None => {},
            }
        }
        i += 1;
    }
    let r = string_of(&chars, 0, at);
    assert(r@ =~= before_stop(text@, sv));
    r
}

proof fn lemma_stop_place(text: Seq<char>, stops: Seq<Seq<char>>, n: nat)
    requires
        n <= stops.len(),
    ensures
        0 <= stop_place(text, stops, n) <= text.len(),
        forall|j: int, q: int|
            0 <= j < n && stops[j].len() > 0 && #[trigger] occurs_at(text, stops[j], q)
                ==> stop_place(text, stops, n) <= q,
    decreases n,
{
    if n > 0 {
        lemma_stop_place(text, stops, (n - 1) as nat);
        lemma_find_from(text, stops[n - 1], 0);
    }
}

/// What is returned holds no stop string. An empty one, which stands in every
/// text, is none.
pub proof fn law_no_stop_is_returned(text: Seq<char>, stops: Seq<Seq<char>>, j: int)
    requires
        0 <= j < stops.len(),
        stops[j].len() > 0,
    ensures
        !contains(before_stop(text, stops), stops[j]),
{
    let r = before_stop(text, stops);
    let stop = stops[j];
    lemma_stop_place(text, stops, stops.len());
    assert forall|i: int| !occurs_at(r, stop, i) by {
        if occurs_at(r, stop, i) {
            assert(text.subrange(i, i + stop.len()) =~= r.subrange(i, i + stop.len()));
            assert(occurs_at(text, stop, i));
        }
    }
}

/// A text without a stop string is returned as it is.
pub proof fn law_text_without_stops_is_kept(text: Seq<char>, stops: Seq<Seq<char>>)
    requires
        forall|j: int|
            0 <= j < stops.len() && (#[trigger] stops[j]).len() > 0 ==> !contains(text, stops[j]),
    ensures
        before_stop(text, stops) == text,
{
    lemma_no_stop_place(text, stops, stops.len());
    assert(text.take(text.len() as int) =~= text);
}

proof fn lemma_no_stop_place(text: Seq<char>, stops: Seq<Seq<char>>, n: nat)
    requires
        n <= stops.len(),
        forall|j: int|
            0 <= j < stops.len() && (#[trigger] stops[j]).len() > 0 ==> !contains(text, stops[j]),
    ensures
        stop_place(text, stops, n) == text.len(),
    decreases n,
{
    if n > 0 {
        lemma_no_stop_place(text, stops, (n - 1) as nat);
        lemma_find_from(text, stops[n - 1], 0);
        assert(stops[n - 1].len() > 0 ==> !contains(text, stops[n - 1]));
    }
}

// ---------------------------------------------------------------------------
// Reasoning and content
// ---------------------------------------------------------------------------
/// The last position of a token.
pub open spec fn last_token(tokens: Seq<u32>, t: u32, n: nat) -> Option<int>
    decreases n,
{
    if n == 0 || n > tokens.len() {
        None
    } else if tokens[n - 1] == t {
        Some(n - 1)
    } else {
        last_token(tokens, t, (n - 1) as nat)
    }
}

/// How the tokens of an answer are to be decoded.
#[derive(Debug, Clone, Copy, PartialEq, Eq, Structural)]
pub enum DecodePlan {
    /// The reasoning stands before this position, the content behind it.
    Split { at: usize },
    /// All is content.
    Whole,
    /// All is text in which the reasoning is marked by tags.
    Tagged,
}

/// Says how the tokens are to be decoded: at the last end of thinking, where
/// the model marks it by a token and was asked to think.
pub fn plan_decoding(tokens: &Vec<u32>, think_end: Option<u32>, enable_thinking: bool) -> (r:
    DecodePlan)
    ensures
        match think_end {
            None => r == DecodePlan::Tagged,
            Some(t) => match last_token(tokens@, t, tokens@.len()) {
                Some(i) => if enable_thinking {
                    r == DecodePlan::Split { at: i as usize }
                } else {
                    r == DecodePlan::Whole
                },
                None => r == DecodePlan::Whole,
            },
        },
        r matches DecodePlan::Split { at } ==> at < tokens@.len(),
{
    let t = match think_end {
        Some(t) => t,
        None => return DecodePlan::Tagged,
    };
    let mut i: usize = tokens.len();
    while i > 0
        invariant
            i <= tokens@.len(),
            think_end == Some(t),
            last_token(tokens@, t, tokens@.len()) == last_token(tokens@, t, i as nat),
        decreases i,
    {
        if tokens[i - 1] == t {
            return if enable_thinking {
                DecodePlan::Split { at: i - 1 }
            } else {
                DecodePlan::Whole
            };
        }
        i -= 1;
    }
    DecodePlan::Whole
}

/// The reasoning that is worth showing.
pub open spec fn shown_reasoning(decoded: Option<Seq<char>>) -> Option<Seq<char>> {
    match decoded {
        Some(t) => if trim(t, CharSet::White).len() > 0 {
            Some(t)
        } else {
            None
        },
        None => None,
    }
}

/// The content, without leading white space; empty where it was not decoded.
pub open spec fn shown_content(decoded: Option<Seq<char>>) -> Seq<char> {
    match decoded {
        Some(t) => trim_start(t, CharSet::White),
        None => trim_start(Seq::empty(), CharSet::White),
    }
}

/// Puts together what the two parts of an answer were decoded to. Reasoning is
/// `None` where there is none or it was not decoded.
pub fn decode_response_text(reasoning: Option<String>, content: Option<String>) -> (r: (
    Option<String>,
    String,
))
    ensures
        opt_view(r.0) == shown_reasoning(opt_view(reasoning)),
        r.1@ == shown_content(opt_view(content)),
{
    let shown = match reasoning {
        Some(t) => {
            if trim_chars(&chars_of(t.as_str()), CharSet::White).len() > 0 {
                Some(t)
            } else {
                None
            }
        },
        None => None,
    };
    let text = match content {
        Some(t) => t,
        None => String::new(),
    };
    (shown, string_of_all(&trim_start_chars(&chars_of(text.as_str()), CharSet::White)))
}

// ---------------------------------------------------------------------------
// The message of a choice
// ---------------------------------------------------------------------------
/// A text without function openers: each goes from `<function=` to the next
/// `>`, or to the end.
pub open spec fn without_openers(c: Seq<char>) -> Seq<char>
    decreases c.len(),
    when true
    via without_openers_decreases
{
    match find(c, "<function="@) {
        Some(s) => without_openers(
            c.take(s) + c.skip(
                match find_from(c, ">"@, s) {
                    Some(e) => e + 1,
                    None => c.len() as int,
                },
            ),
        ),
        None => c,
    }
}

#[via_fn]
proof fn without_openers_decreases(c: Seq<char>) {
    reveal_strlit("<function=");
    reveal_strlit(">");
    lemma_find_from(c, "<function="@, 0);
    match find(c, "<function="@) {
        Some(s) => {
            lemma_find_from(c, ">"@, s);
        },
        None => {},
    }
}

/// A text without fenced code: each block goes from one fence to the next. A
/// fence without another stays.
pub open spec fn without_fences(c: Seq<char>) -> Seq<char>
    decreases c.len(),
    when true
    via without_fences_decreases
{
    match find(c, "```"@) {
        Some(s) => match find_from(c, "```"@, s + 3) {
            Some(e) => without_fences(c.take(s) + c.skip(e + 3)),
            None => c,
        },
        None => c,
    }
}

#[via_fn]
proof fn without_fences_decreases(c: Seq<char>) {
    reveal_strlit("```");
    lemma_find_from(c, "```"@, 0);
    match find(c, "```"@) {
        Some(s) => {
            lemma_find_from(c, "```"@, s + 3);
        },
        None => {},
    }
}

/// The prose beside tool calls: without their tags, openers and fenced code.
pub open spec fn clean_content(c: Seq<char>) -> Seq<char> {
    let a = replace(c, "</parameter>"@, Seq::empty());
    let b = replace(a, "</function>"@, Seq::empty());
    let d = replace(b, "</tool_call>"@, Seq::empty());
    let e = replace(d, "<tool_call>"@, Seq::empty());
    trim(without_fences(without_openers(e)), CharSet::White)
}

/// Joins what stands before `lo` and what stands from `hi` on.
fn cut_out(c: &Vec<char>, lo: usize, hi: usize) -> (r: Vec<char>)
    requires
        lo <= hi <= c@.len(),
    ensures
        r@ == c@.take(lo as int) + c@.skip(hi as int),
{
    let mut r = part(c, 0, lo);
    push_part(&mut r, c, hi, c.len());
    assert(r@ =~= c@.take(lo as int) + c@.skip(hi as int));
    r
}

/// Computes [`without_openers`].
fn drop_openers(c: Vec<char>) -> (r: Vec<char>)
    ensures
        r@ == without_openers(c@),
{
    let open = chars_of("<function=");
    let close = chars_of(">");
    proof {
        reveal_strlit("<function=");
        reveal_strlit(">");
    }
    let mut v = c;
    loop
        invariant
            open@ == "<function="@,
            close@ == ">"@,
            open@.len() == 10,
            close@.len() == 1,
            without_openers(v@) == without_openers(c@),
        decreases v@.len(),
    {
        match find_chars(&v, &open, 0) {
            Some(s) => {
                let e: usize = match find_chars(&v, &close, s) {
                    Some(e) => e + 1,
                    None => v.len(),
                };
                v = cut_out(&v, s, e);
            },
            None => {
                return v;
            },
        }
    }
}

/// Computes [`without_fences`].
fn drop_fences(c: Vec<char>) -> (r: Vec<char>)
    ensures
        r@ == without_fences(c@),
{
    let fence = chars_of("```");
    proof {
        reveal_strlit("```");
    }
    let mut v = c;
    loop
        invariant
            fence@ == "```"@,
            fence@.len() == 3,
            without_fences(v@) == without_fences(c@),
        decreases v@.len(),
    {
        match find_chars(&v, &fence, 0) {
            Some(s) => match find_chars(&v, &fence, s + 3) {
                Some(e) => {
                    v = cut_out(&v, s, e + 3);
                },
                None => {
                    return v;
                },
            },
            None => {
                return v;
            },
        }
    }
}

/// Computes [`clean_content`].
pub fn clean(content: &str) -> (r: String)
    ensures
        r@ == clean_content(content@),
{
    let nothing: Vec<char> = Vec::new();
    proof {
        reveal_strlit("</parameter>");
        reveal_strlit("</function>");
        reveal_strlit("</tool_call>");
        reveal_strlit("<tool_call>");
        assert(nothing@ =~= Seq::<char>::empty());
    }
    let a = replace_chars(&chars_of(content), &chars_of("</parameter>"), &nothing);
    let b = replace_chars(&a, &chars_of("</function>"), &nothing);
    let d = replace_chars(&b, &chars_of("</tool_call>"), &nothing);
    let e = replace_chars(&d, &chars_of("<tool_call>"), &nothing);
    let f = drop_fences(drop_openers(e));
    string_of_all(&trim_chars(&f, CharSet::White))
}

/// What was found when tool calls were looked for in an answer.
#[derive(Debug)]
pub struct FoundCalls {
    /// The prose beside the calls.
    pub content: Option<String>,
    /// The calls that keep to the declarations of the tools.
    pub valid: Vec<ToolCall>,
}

/// The message of a choice. `found` is set where tools are active and calls
/// were found in the text.
pub open spec fn choice_message(
    reasoning: Option<Seq<char>>,
    text: Seq<char>,
    annotations: Option<Seq<CitationView>>,
    found: Option<(Option<Seq<char>>, Seq<ToolCallView>)>,
) -> ChatMessageView {
    ChatMessageView {
        role: "assistant"@,
        reasoning_content: reasoning,
        reasoning,
        content: match found {
            Some((content, _)) => match content {
                Some(c) => Some(clean_content(c)),
                None => None,
            },
            None => Some(text),
        },
        tool_calls: match found {
            Some((_, valid)) => if valid.len() > 0 {
                Some(valid)
            } else {
                None
            },
            None => None,
        },
        annotations,
        refusal: None,
    }
}

/// The finish reason of a choice: that of the scheduler, unless a call was
/// found.
pub open spec fn choice_finish(
    upstream: Seq<char>,
    found: Option<(Option<Seq<char>>, Seq<ToolCallView>)>,
) -> Seq<char> {
    match found {
        Some((_, valid)) => if valid.len() > 0 {
            "tool_calls"@
        } else {
            upstream
        },
        None => upstream,
    }
}

/// The view of what was found.
pub open spec fn found_view(f: Option<FoundCalls>) -> Option<
    (Option<Seq<char>>, Seq<ToolCallView>),
> {
    match f {
        Some(x) => Some((opt_view(x.content), call_views(x.valid@))),
        None => None,
    }
}

/// Makes the message of a choice and its finish reason.
pub fn build_choice_message(
    reasoning: Option<String>,
    text: String,
    annotations: Option<Vec<Annotation>>,
    upstream: String,
    found: Option<FoundCalls>,
) -> (r: (ChatMessage, String))
    ensures
        r.0@ == choice_message(
            opt_view(reasoning),
            text@,
            opt_annotations(annotations),
            found_view(found),
        ),
        r.1@ == choice_finish(upstream@, found_view(found)),
{
    let ghost fv = found_view(found);
    let copy = crate::tools::copy_opt(&reasoning);
    let mut content = Some(text);
    let mut tool_calls: Option<Vec<ToolCall>> = None;
    let mut finish = upstream;
    match found {
        Some(f) => {
            content =
            match f.content {
                Some(c) => Some(clean(c.as_str())),
                None => None,
            };
            if f.valid.len() > 0 {
                tool_calls = Some(f.valid);
                finish = own("tool_calls");
            }
        },
        None => {},
    }
    let message = ChatMessage {
        role: own("assistant"),
        reasoning_content: copy,
        reasoning,
        content,
        tool_calls,
        annotations,
        refusal: None,
    };
    (message, finish)
}

// ---------------------------------------------------------------------------
// All the choices
// ---------------------------------------------------------------------------
/// The counts of one answer of the scheduler.
#[derive(Debug, Clone, Copy, PartialEq, Eq, Structural)]
pub struct AnswerCounts {
    pub completion_tokens: usize,
    pub reasoning_tokens: u32,
    pub cached_prompt_tokens: u32,
    pub accepted_prediction_tokens: u32,
    pub rejected_prediction_tokens: u32,
}

/// The counts of all the answers to a request. `F` is the type of the timings.
#[derive(Debug, Clone, Copy)]
pub struct Totals<F> {
    pub counts: AnswerCounts,
    pub time_to_first_token_ms: F,
    pub decode_time_ms: F,
}

/// The greater of two.
pub open spec fn max_u32(a: u32, b: u32) -> u32 {
    if a >= b {
        a
    } else {
        b
    }
}

/// Whether the sums of two counts fit.
pub open spec fn sums_fit(a: AnswerCounts, b: AnswerCounts) -> bool {
    &&& a.completion_tokens + b.completion_tokens <= usize::MAX
    &&& a.reasoning_tokens + b.reasoning_tokens <= u32::MAX
    &&& a.accepted_prediction_tokens + b.accepted_prediction_tokens <= u32::MAX
    &&& a.rejected_prediction_tokens + b.rejected_prediction_tokens <= u32::MAX
}

/// The sum of two counts. The prompt is the same for all, so its cached tokens
/// are counted once.
pub open spec fn sum_counts(a: AnswerCounts, b: AnswerCounts) -> AnswerCounts {
    AnswerCounts {
        completion_tokens: (a.completion_tokens + b.completion_tokens) as usize,
        reasoning_tokens: (a.reasoning_tokens + b.reasoning_tokens) as u32,
        cached_prompt_tokens: max_u32(a.cached_prompt_tokens, b.cached_prompt_tokens),
        accepted_prediction_tokens: (a.accepted_prediction_tokens
            + b.accepted_prediction_tokens) as u32,
        rejected_prediction_tokens: (a.rejected_prediction_tokens
            + b.rejected_prediction_tokens) as u32,
    }
}

/// No counts.
pub open spec fn no_counts() -> AnswerCounts {
    AnswerCounts {
        completion_tokens: 0,
        reasoning_tokens: 0,
        cached_prompt_tokens: 0,
        accepted_prediction_tokens: 0,
        rejected_prediction_tokens: 0,
    }
}

impl<F: Copy> Totals<F> {
    /// Before the first answer.
    pub fn new(zero: F) -> (r: Totals<F>)
        ensures
            r.counts == no_counts(),
            r.time_to_first_token_ms == zero,
            r.decode_time_ms == zero,
    {
        Totals {
            counts: AnswerCounts {
                completion_tokens: 0,
                reasoning_tokens: 0,
                cached_prompt_tokens: 0,
                accepted_prediction_tokens: 0,
                rejected_prediction_tokens: 0,
            },
            time_to_first_token_ms: zero,
            decode_time_ms: zero,
        }
    }

    /// With one answer more. The time to the first token is that of the first
    /// answer, the decoding time that of the last.
    pub fn take(&mut self, choice_idx: usize, a: AnswerCounts, ttft_ms: F, decode_ms: F)
        requires
            sums_fit(old(self).counts, a),
        ensures
            final(self).counts == sum_counts(old(self).counts, a),
            final(self).time_to_first_token_ms == if choice_idx == 0 {
                ttft_ms
            } else {
                old(self).time_to_first_token_ms
            },
            final(self).decode_time_ms == decode_ms,
    {
        if choice_idx == 0 {
            self.time_to_first_token_ms = ttft_ms;
        }
        self.decode_time_ms = decode_ms;
        self.counts =
        AnswerCounts {
            completion_tokens: self.counts.completion_tokens + a.completion_tokens,
            reasoning_tokens: self.counts.reasoning_tokens + a.reasoning_tokens,
            cached_prompt_tokens: if self.counts.cached_prompt_tokens >= a.cached_prompt_tokens {
                self.counts.cached_prompt_tokens
            } else {
                a.cached_prompt_tokens
            },
            accepted_prediction_tokens: self.counts.accepted_prediction_tokens
                + a.accepted_prediction_tokens,
            rejected_prediction_tokens: self.counts.rejected_prediction_tokens
                + a.rejected_prediction_tokens,
        };
    }
}

/// The choices of a request, as they come in.
#[derive(Debug)]
pub struct BlockingRun<F, L> {
    n: usize,
    choices: Vec<ChatChoice<L>>,
    totals: Totals<F>,
}

impl<F: Copy, L> BlockingRun<F, L> {
    /// The number of choices.
    pub closed spec fn wanted(self) -> usize {
        self.n
    }

    /// The choices so far.
    pub closed spec fn done(self) -> Seq<ChatChoice<L>> {
        self.choices@
    }

    /// The totals so far.
    pub closed spec fn so_far(self) -> Totals<F> {
        self.totals
    }

    /// There are no more choices than wanted, and each has its place.
    pub open spec fn wf(self) -> bool {
        &&& self.wanted() >= 1
        &&& self.done().len() <= self.wanted()
        &&& forall|i: int| 0 <= i < self.done().len() ==> (#[trigger] self.done()[i]).index == i
    }

    /// Before the first answer.
    pub fn new(n: usize, zero: F) -> (r: BlockingRun<F, L>)
        ensures
            r.wf(),
            r.wanted() == if n == 0 {
                1
            } else {
                n
            },
            r.done() == Seq::<ChatChoice<L>>::empty(),
            r.so_far().counts == no_counts(),
            r.so_far().time_to_first_token_ms == zero,
            r.so_far().decode_time_ms == zero,
    {
        BlockingRun { n: choice_count(n), choices: Vec::new(), totals: Totals::new(zero) }
    }

    /// The choice that is to be asked for next.
    pub fn next_choice(&self) -> (r: Option<usize>)
        requires
            self.wf(),
        ensures
            match r {
                Some(i) => i == self.done().len() && i < self.wanted(),
                None => self.done().len() == self.wanted(),
            },
    {
        if self.choices.len() < self.n {
            Some(self.choices.len())
        } else {
            None
        }
    }

    /// Takes an answer in.
    pub fn take_answer(
        &mut self,
        message: ChatMessage,
        finish_reason: String,
        logprobs: Option<L>,
        counts: AnswerCounts,
        ttft_ms: F,
        decode_ms: F,
    )
        requires
            old(self).wf(),
            old(self).done().len() < old(self).wanted(),
            sums_fit(old(self).so_far().counts, counts),
        ensures
            final(self).wf(),
            final(self).wanted() == old(self).wanted(),
            final(self).done() == old(self).done().push(
                ChatChoice { index: old(self).done().len() as usize, message, finish_reason, logprobs },
            ),
            final(self).so_far().counts == sum_counts(old(self).so_far().counts, counts),
            final(self).so_far().time_to_first_token_ms == if old(self).done().len() == 0 {
                ttft_ms
            } else {
                old(self).so_far().time_to_first_token_ms
            },
            final(self).so_far().decode_time_ms == decode_ms,
    {
        let index = self.choices.len();
        let mut totals = self.totals;
        totals.take(index, counts, ttft_ms, decode_ms);
        self.totals = totals;
        self.choices.push(ChatChoice { index, message, finish_reason, logprobs });
    }

    /// The choices and the totals, once all are in.
    pub fn finish(self) -> (r: (Vec<ChatChoice<L>>, Totals<F>))
        requires
            self.wf(),
            self.done().len() == self.wanted(),
        ensures
            r.0@ == self.done(),
            r.1 == self.so_far(),
    {
        (self.choices, self.totals)
    }
}

/// The number of choices: at least one.
pub fn choice_count(n: usize) -> (r: usize)
    ensures
        r == if n == 0 {
            1
        } else {
            n
        },
{
    if n == 0 {
        1
    } else {
        n
    }
}

/// The seed of a choice: that of the request, counted on and wrapped around.
pub open spec fn seed_of(seed: Option<u64>, choice_idx: int) -> Option<u64> {
    match seed {
        Some(s) => Some(((s + choice_idx) % 0x1_0000_0000_0000_0000) as u64),
        None => None,
    }
}

/// Computes [`seed_of`].
pub fn choice_seed(seed: Option<u64>, choice_idx: usize) -> (r: Option<u64>)
    ensures
        r == seed_of(seed, choice_idx as int),
{
    match seed {
        Some(s) => {
            let i: u64 = choice_idx as u64;
            let r = s.wrapping_add(i);
            proof {
                let sum = s + choice_idx;
                if sum < 0x1_0000_0000_0000_0000 {
                    vstd::arithmetic::div_mod::lemma_small_mod(
                        sum as nat,
                        0x1_0000_0000_0000_0000,
                    );
                } else {
                    vstd::arithmetic::div_mod::lemma_mod_sub_multiples_vanish(
                        sum,
                        0x1_0000_0000_0000_0000,
                    );
                    vstd::arithmetic::div_mod::lemma_small_mod(
                        (sum - 0x1_0000_0000_0000_0000) as nat,
                        0x1_0000_0000_0000_0000,
                    );
                }
            }
            Some(r)
        },
        None => None,
    }
}

/// The error of a scheduler that takes no request.
pub fn queue_full() -> (r: ApiError)
    ensures
        r@ == plain_error(SERVICE_UNAVAILABLE, "Scheduler queue full"@),
{
    ApiError::plain(SERVICE_UNAVAILABLE, own("Scheduler queue full"))
}

/// The error of a scheduler that failed.
pub fn inference_failed(error: &str) -> (r: ApiError)
    ensures
        r@ == plain_error(INTERNAL_SERVER_ERROR, "Inference error: "@ + error@),
{
    let mut m = own("Inference error: ");
    m.append(error);
    ApiError::plain(INTERNAL_SERVER_ERROR, m)
}

/// The error of a scheduler that gave no answer.
pub fn inference_cancelled() -> (r: ApiError)
    ensures
        r@ == plain_error(INTERNAL_SERVER_ERROR, "Inference cancelled"@),
{
    ApiError::plain(INTERNAL_SERVER_ERROR, own("Inference cancelled"))
}

/// What is to be done with a finished completion.
#[derive(Debug)]
pub struct Finalized<F, L> {
    /// The answer.
    pub response: ChatCompletionResponse<F, L>,
    /// Whether it is to be stored.
    pub store: bool,
    /// The tokens to give back of those reserved.
    pub refund: u64,
}

/// Makes the answer out of the choices and the totals. The speed is the
/// caller's.
pub fn finalize_response<F: Copy, L>(
    id: String,
    model: String,
    created: u64,
    choices: Vec<ChatChoice<L>>,
    totals: &Totals<F>,
    tokens_per_second: F,
    prompt_len: usize,
    request_id: &str,
    service_tier: Option<String>,
    metadata: Option<Vec<(String, String)>>,
    store: Option<bool>,
    reserved_tokens: Option<u64>,
) -> (r: Finalized<F, L>)
    requires
        prompt_len + totals.counts.completion_tokens <= usize::MAX,
    ensures
        r.response.is_completion(id@, created, model@),
        r.response.choices == choices,
        r.response.service_tier == service_tier,
        r.response.metadata == metadata,
        r.response.usage@ == (UsageView {
            prompt_tokens: prompt_len,
            completion_tokens: totals.counts.completion_tokens,
            total_tokens: (prompt_len + totals.counts.completion_tokens) as usize,
            prompt_tokens_details: Some(
                PromptTokensDetails {
                    cached_tokens: totals.counts.cached_prompt_tokens as usize,
                    audio_tokens: 0,
                },
            ),
            completion_tokens_details: Some(
                CompletionTokensDetails {
                    reasoning_tokens: totals.counts.reasoning_tokens as usize,
                    audio_tokens: 0,
                    accepted_prediction_tokens: totals.counts.accepted_prediction_tokens as usize,
                    rejected_prediction_tokens: totals.counts.rejected_prediction_tokens as usize,
                },
            ),
            time_to_first_token_ms: totals.time_to_first_token_ms,
            response_tokens_per_second: tokens_per_second,
            request_id: request_id@,
        }),
        r.store == (store == Some(true)),
        r.refund == match reserved_tokens {
            Some(n) => refund_due(n, prompt_len + totals.counts.completion_tokens),
            None => 0,
        },
{
    let usage = build_usage(
        prompt_len,
        totals.counts.completion_tokens,
        totals.time_to_first_token_ms,
        tokens_per_second,
        totals.counts.reasoning_tokens,
        totals.counts.cached_prompt_tokens,
        totals.counts.accepted_prediction_tokens,
        totals.counts.rejected_prediction_tokens,
        own(request_id),
    );
    let response = assemble_chat_response(
        id,
        model,
        created,
        choices,
        usage,
        service_tier,
        metadata,
    );
    let store = match store {
        Some(b) => b,
        None => false,
    };
    let refund = match reserved_tokens {
        Some(n) => refund(n, prompt_len, totals.counts.completion_tokens),
        None => 0,
    };
    Finalized { response, store, refund }
}

// ---------------------------------------------------------------------------
// Laws of the whole answer
// ---------------------------------------------------------------------------
/// The split between reasoning and content is at the last end of thinking:
/// none comes behind it, and where there is none there is no split.
pub proof fn law_split_is_the_last_end(tokens: Seq<u32>, t: u32)
    ensures
        match last_token(tokens, t, tokens.len()) {
            Some(i) => 0 <= i < tokens.len() && tokens[i] == t && forall|j: int|
                i < j < tokens.len() ==> #[trigger] tokens[j] != t,
            None => forall|j: int| 0 <= j < tokens.len() ==> #[trigger] tokens[j] != t,
        },
{
    lemma_last_token(tokens, t, tokens.len());
}

proof fn lemma_last_token(tokens: Seq<u32>, t: u32, n: nat)
    requires
        n <= tokens.len(),
    ensures
        match last_token(tokens, t, n) {
            Some(i) => 0 <= i < n && tokens[i] == t && forall|j: int|
                i < j < n ==> #[trigger] tokens[j] != t,
            None => forall|j: int| 0 <= j < n ==> #[trigger] tokens[j] != t,
        },
    decreases n,
{
    if n > 0 && tokens[n - 1] != t {
        lemma_last_token(tokens, t, (n - 1) as nat);
    }
}

/// Of what an answer was decoded to, nothing is lost but white space: reasoning
/// is shown as it is unless it is all white space, and content from its first
/// other character on.
pub proof fn law_decoded_parts_are_shown(reasoning: Seq<char>, content: Seq<char>)
    ensures
        shown_reasoning(Some(reasoning)) matches Some(t) ==> t == reasoning,
        shown_reasoning(Some(reasoning)) is None ==> all_in(reasoning, CharSet::White),
        shown_reasoning(None) is None,
        ({
            let c = shown_content(Some(content));
            &&& c.len() <= content.len()
            &&& c == content.skip(content.len() - c.len())
            &&& all_in(content.take(content.len() - c.len()), CharSet::White)
        }),
        shown_content(None).len() == 0,
{
    law_trimming_takes_the_ends(reasoning, CharSet::White);
    law_trimming_takes_the_ends(content, CharSet::White);
    law_trimming_takes_the_ends(Seq::empty(), CharSet::White);
    if trim(reasoning, CharSet::White).len() == 0 {
        let (a, b) = choose|a: Seq<char>, b: Seq<char>|
            #![trigger a + trim(reasoning, CharSet::White) + b]
            reasoning == a + trim(reasoning, CharSet::White) + b && all_in(a, CharSet::White)
                && all_in(b, CharSet::White);
        assert forall|i: int| 0 <= i < reasoning.len() implies CharSet::White.has(
            #[trigger] reasoning[i],
        ) by {
            if i < a.len() {
                assert(reasoning[i] == a[i]);
            } else {
                assert(reasoning[i] == b[i - a.len()]);
            }
        }
    }
}

/// The message of a choice carries what the answer was decoded to and what was
/// found in it: the reasoning, under both names that clients read, the
/// annotations, the text as its content where no calls were looked for or
/// found, and else exactly the calls that were found.
pub proof fn law_choice_carries_the_answer(
    message: ChatMessage,
    reasoning: Option<Seq<char>>,
    text: Seq<char>,
    annotations: Option<Seq<CitationView>>,
    found: Option<(Option<Seq<char>>, Seq<ToolCallView>)>,
)
    requires
        message@ == choice_message(reasoning, text, annotations, found),
    ensures
        message.role@ == "assistant"@,
        opt_view(message.reasoning_content) == reasoning,
        opt_view(message.reasoning) == reasoning,
        opt_annotations(message.annotations) == annotations,
        message.refusal is None,
        found is None ==> opt_view(message.content) == Some(text) && message.tool_calls is None,
        found matches Some((prose, calls)) ==> {
            &&& (message.content is Some) == (prose is Some)
            &&& (message.tool_calls is Some) == (calls.len() > 0)
            &&& message.tool_calls matches Some(c) ==> call_views(c@) == calls
        },
{
}

/// An answer in which a valid call was found ends for its calls, and any other
/// as the scheduler says.
pub proof fn law_found_call_is_the_reason(
    upstream: Seq<char>,
    prose: Option<Seq<char>>,
    calls: Seq<ToolCallView>,
)
    ensures
        choice_finish(upstream, None) == upstream,
        calls.len() == 0 ==> choice_finish(upstream, Some((prose, calls))) == upstream,
        calls.len() > 0 ==> choice_finish(upstream, Some((prose, calls))) == "tool_calls"@,
{
}

/// Prose beside calls that holds no tag, no opener and no fence is kept, but
/// for white space at its ends.
pub proof fn law_prose_beside_calls_is_kept(
    reasoning: Option<Seq<char>>,
    text: Seq<char>,
    annotations: Option<Seq<CitationView>>,
    prose: Seq<char>,
    calls: Seq<ToolCallView>,
)
    requires
        !contains(prose, "</parameter>"@),
        !contains(prose, "</function>"@),
        !contains(prose, "</tool_call>"@),
        !contains(prose, "<tool_call>"@),
        !contains(prose, "<function="@),
        !contains(prose, "```"@),
    ensures
        choice_message(reasoning, text, annotations, Some((Some(prose), calls))).content == Some(
            trim(prose, CharSet::White),
        ),
{
    reveal_strlit("</parameter>");
    reveal_strlit("</function>");
    reveal_strlit("</tool_call>");
    reveal_strlit("<tool_call>");
    let e = Seq::<char>::empty();
    lemma_absent(prose, "</parameter>"@);
    lemma_absent(prose, "</function>"@);
    lemma_absent(prose, "</tool_call>"@);
    lemma_absent(prose, "<tool_call>"@);
    lemma_absent(prose, "<function="@);
    lemma_absent(prose, "```"@);
    law_replacing(prose, "</parameter>"@, e, e, e);
    law_replacing(prose, "</function>"@, e, e, e);
    law_replacing(prose, "</tool_call>"@, e, e, e);
    law_replacing(prose, "<tool_call>"@, e, e, e);
}

proof fn lemma_absent(s: Seq<char>, p: Seq<char>)
    requires
        !contains(s, p),
    ensures
        find(s, p) is None,
{
    lemma_find_from(s, p, 0);
}

/// No opener of a call is left in the prose.
pub proof fn law_no_opener_is_left(c: Seq<char>)
    ensures
        !contains(without_openers(c), "<function="@),
    decreases c.len(),
{
    reveal_strlit("<function=");
    reveal_strlit(">");
    lemma_find_from(c, "<function="@, 0);
    match find(c, "<function="@) {
        Some(s) => {
            lemma_find_from(c, ">"@, s);
            let e = match find_from(c, ">"@, s) {
                Some(e) => e + 1,
                None => c.len() as int,
            };
            law_no_opener_is_left(c.take(s) + c.skip(e));
        },
        None => {
            assert(!contains(c, "<function="@));
        },
    }
}

/// An opener, and a fenced block, is taken out with what stands in it, and what
/// stands before and behind it stays.
pub proof fn law_markup_is_taken_out(a: Seq<char>, x: Seq<char>, b: Seq<char>)
    ensures
        ({
            let c = a + ("<function="@ + x + ">"@) + b;
            find(c, "<function="@) == Some(a.len() as int) && find_from(c, ">"@, a.len() as int)
                == Some((a.len() + 10 + x.len()) as int) ==> without_openers(c) == without_openers(
                a + b,
            )
        }),
        ({
            let c = a + ("```"@ + x + "```"@) + b;
            find(c, "```"@) == Some(a.len() as int) && find_from(
                c,
                "```"@,
                (a.len() + 3) as int,
            ) == Some((a.len() + 3 + x.len()) as int) ==> without_fences(c) == without_fences(a + b)
        }),
        !contains(a, "```"@) ==> without_fences(a) == a,
        !contains(a, "<function="@) ==> without_openers(a) == a,
{
    reveal_strlit("<function=");
    reveal_strlit(">");
    reveal_strlit("```");
    let n = a.len() as int;
    let c = a + ("<function="@ + x + ">"@) + b;
    assert(c.take(n) + c.skip(n + 10 + x.len() + 1) =~= a + b);
    let d = a + ("```"@ + x + "```"@) + b;
    assert(d.take(n) + d.skip(n + 3 + x.len() + 3) =~= a + b);
    lemma_find_from(a, "```"@, 0);
    lemma_find_from(a, "<function="@, 0);
}

/// The counts of several answers are added up; those of the prompt, which they
/// share, are counted once.
pub proof fn law_counts_add_up(a: AnswerCounts, b: AnswerCounts)
    requires
        sums_fit(a, b),
    ensures
        ({
            let s = sum_counts(a, b);
            &&& s.completion_tokens == a.completion_tokens + b.completion_tokens
            &&& s.reasoning_tokens == a.reasoning_tokens + b.reasoning_tokens
            &&& s.accepted_prediction_tokens == a.accepted_prediction_tokens
                + b.accepted_prediction_tokens
            &&& s.rejected_prediction_tokens == a.rejected_prediction_tokens
                + b.rejected_prediction_tokens
            &&& s.cached_prompt_tokens >= a.cached_prompt_tokens
            &&& s.cached_prompt_tokens >= b.cached_prompt_tokens
            &&& s.cached_prompt_tokens == a.cached_prompt_tokens || s.cached_prompt_tokens
                == b.cached_prompt_tokens
        }),
        sum_counts(no_counts(), a) == a,
        sum_counts(a, no_counts()) == a,
{
}

/// The first choice is drawn with the seed of the request, every other one with
/// a seed of its own; a request without a seed has none for any choice.
pub proof fn law_each_choice_has_its_seed(seed: u64, i: usize, j: usize)
    requires
        i != j,
    ensures
        seed_of(Some(seed), 0) == Some(seed),
        seed_of(Some(seed), i as int) is Some,
        seed_of(Some(seed), i as int) != seed_of(Some(seed), j as int),
        seed_of(None, i as int) is None,
{
    let m = 0x1_0000_0000_0000_0000int;
    vstd::arithmetic::div_mod::lemma_small_mod(seed as nat, m as nat);
    lemma_wrapped(seed as int, i as int);
    lemma_wrapped(seed as int, j as int);
}

proof fn lemma_wrapped(s: int, i: int)
    requires
        0 <= s < 0x1_0000_0000_0000_0000,
        0 <= i < 0x1_0000_0000_0000_0000,
    ensures
        (s + i) % 0x1_0000_0000_0000_0000 == if s + i < 0x1_0000_0000_0000_0000 {
            s + i
        } else {
            s + i - 0x1_0000_0000_0000_0000
        },
{
}

} // verus!

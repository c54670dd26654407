//! Whether a request is answered with thinking, and for how many tokens.
use vstd::prelude::*;
use crate::openai::chat_request::{ChatCompletionRequest, ChatTemplateKwargs};
use crate::openai::chat_request::kwargs_thinking;

verus! {

/// How a model is served.
#[derive(Debug, Clone, Copy, PartialEq, Eq, Structural)]
pub struct ThinkingPolicy {
    /// No request is answered with thinking.
    pub disabled: bool,
    /// What the model does where the client says nothing.
    pub thinking_default: bool,
    /// Whether the model thinks while tools are active, where the client says
    /// nothing.
    pub thinking_in_tools: bool,
    /// The most tokens that thinking may take, and what it takes where no
    /// budget is set.
    pub max_thinking_budget: u32,
}

/// A request with the template arguments that the server falls back on, where
/// the client says nothing about thinking.
pub open spec fn with_fallback<F>(
    req: ChatCompletionRequest<F>,
    fallback: Option<ChatTemplateKwargs>,
) -> ChatCompletionRequest<F> {
    if fallback is Some && req.asked_thinking() is None {
        ChatCompletionRequest { chat_template_kwargs: fallback, ..req }
    } else {
        req
    }
}

/// Computes [`with_fallback`].
pub fn fall_back<F>(
    req: ChatCompletionRequest<F>,
    fallback: Option<ChatTemplateKwargs>,
) -> (r: ChatCompletionRequest<F>)
    ensures
        r == with_fallback(req, fallback),
{
    if fallback.is_some() && !req.thinking_explicitly_requested() {
        ChatCompletionRequest { chat_template_kwargs: fallback, ..req }
    } else {
        req
    }
}

/// The client's word on thinking wins over the server's arguments, and these
/// win over the model's default.
pub proof fn law_thinking_ranks<F>(
    req: ChatCompletionRequest<F>,
    fallback: Option<ChatTemplateKwargs>,
    model_default: bool,
)
    ensures
        with_fallback(req, fallback).thinking_choice(model_default) == match req.asked_thinking() {
            Some(t) => t,
            None => match fallback {
                Some(k) => match kwargs_thinking(k) {
                    Some(t) => t,
                    None => req.thinking_choice(model_default),
                },
                None => req.thinking_choice(model_default),
            },
        },
{
}

/// The part of the answer, in tenths, that thinking may take.
pub open spec fn thinking_tenths(policy: ThinkingPolicy, tools_active: bool) -> int {
    if tools_active && policy.thinking_in_tools {
        7
    } else {
        9
    }
}

/// The most tokens that thinking may take of an answer of `max_tokens`: its
/// part, but at least one.
pub open spec fn thinking_cap(policy: ThinkingPolicy, max_tokens: int, tools_active: bool) -> int {
    let cap = max_tokens * thinking_tenths(policy, tools_active) / 10;
    if cap >= 1 {
        cap
    } else {
        1
    }
}

/// Whether to think. The switch of the server wins; while tools are active the
/// model's policy wins over its default, and the client's word over both.
pub open spec fn thinks<F>(
    policy: ThinkingPolicy,
    req: ChatCompletionRequest<F>,
    tools_active: bool,
) -> bool {
    &&& !policy.disabled
    &&& !(tools_active && !policy.thinking_in_tools && req.asked_thinking() is None)
    &&& req.thinking_choice(policy.thinking_default).0
}

/// A budget held to the model's ceiling and to its part of the answer.
pub open spec fn capped(
    policy: ThinkingPolicy,
    budget: u32,
    max_tokens: int,
    tools_active: bool,
) -> u32 {
    let cap = thinking_cap(policy, max_tokens, tools_active);
    let ceiling = if budget <= policy.max_thinking_budget {
        budget
    } else {
        policy.max_thinking_budget
    };
    if ceiling <= cap {
        ceiling
    } else {
        cap as u32
    }
}

/// Computes [`capped`].
pub fn cap_budget(
    policy: &ThinkingPolicy,
    budget: u32,
    max_tokens: usize,
    tools_active: bool,
) -> (r: u32)
    ensures
        r == capped(*policy, budget, max_tokens as int, tools_active),
{
    let tenths: u128 = if tools_active && policy.thinking_in_tools {
        7
    } else {
        9
    };
    let share: u128 = max_tokens as u128;
    assert(share * tenths <= u128::MAX) by (nonlinear_arith)
        requires
            share <= u64::MAX,
            tenths <= 9,
    ;
    let mut cap: u128 = share * tenths / 10;
    if cap < 1 {
        cap = 1;
    }
    let ceiling: u32 = if budget <= policy.max_thinking_budget {
        budget
    } else {
        policy.max_thinking_budget
    };
    if ceiling as u128 <= cap {
        ceiling
    } else {
        cap as u32
    }
}

/// Whether to think, and for how many tokens.
pub open spec fn thinking_for<F>(
    policy: ThinkingPolicy,
    req: ChatCompletionRequest<F>,
    tools_active: bool,
) -> (bool, Option<u32>) {
    if thinks(policy, req, tools_active) {
        let b = match req.thinking_choice(policy.thinking_default).1 {
            Some(b) => b,
            None => policy.max_thinking_budget,
        };
        (true, Some(capped(policy, b, req.max_tokens as int, tools_active)))
    } else {
        (false, None)
    }
}

/// Computes [`thinking_for`].
pub fn resolve_thinking<F>(
    policy: &ThinkingPolicy,
    req: &ChatCompletionRequest<F>,
    tools_active: bool,
) -> (r: (bool, Option<u32>))
    ensures
        r == thinking_for(*policy, *req, tools_active),
{
    if policy.disabled {
        return (false, None);
    }
    let (asked, budget) = req.resolve_thinking(policy.thinking_default);
    let think = if tools_active && !policy.thinking_in_tools && !req.thinking_explicitly_requested() {
        false
    } else {
        asked
    };
    if !think {
        return (false, None);
    }
    let b: u32 = match budget {
        Some(b) => b,
        None => policy.max_thinking_budget,
    };
    (true, Some(cap_budget(policy, b, req.max_tokens, tools_active)))
}

/// Whether to think, and for how many tokens, once it is known whether the
/// prompt opens a thinking block: where it does, the model thinks, within its
/// budget and its part of the answer, unless the server's switch is set.
pub open spec fn prompted_thinking(
    policy: ThinkingPolicy,
    settled: (bool, Option<u32>),
    opened: bool,
    max_tokens: int,
    tools_active: bool,
) -> (bool, Option<u32>) {
    if opened && !settled.0 && !policy.disabled {
        (true, Some(capped(policy, policy.max_thinking_budget, max_tokens, tools_active)))
    } else {
        settled
    }
}

/// The switch of the server wins over every request and every prompt.
pub proof fn law_switch_wins<F>(
    policy: ThinkingPolicy,
    req: ChatCompletionRequest<F>,
    opened: bool,
    tools_active: bool,
)
    requires
        policy.disabled,
    ensures
        prompted_thinking(
            policy,
            thinking_for(policy, req, tools_active),
            opened,
            req.max_tokens as int,
            tools_active,
        ) == (false, None::<u32>),
{
}

/// A budget leaves room for the answer, and stays under the ceiling: it is at
/// most nine tenths of the tokens, or one.
pub proof fn law_budget_leaves_room(
    policy: ThinkingPolicy,
    budget: u32,
    max_tokens: usize,
    tools_active: bool,
)
    requires
        max_tokens >= 2,
    ensures
        capped(policy, budget, max_tokens as int, tools_active) < max_tokens,
        capped(policy, budget, max_tokens as int, tools_active) <= budget,
        capped(policy, budget, max_tokens as int, tools_active) <= policy.max_thinking_budget,
{
    let tenths = thinking_tenths(policy, tools_active);
    let n = max_tokens as int;
    assert(n * tenths / 10 < n) by (nonlinear_arith)
        requires
            tenths == 7 || tenths == 9,
            n >= 2,
    ;
}

/// Thinking leaves room for the answer, whatever the client asked for and
/// whatever the prompt opens.
pub proof fn law_thinking_leaves_room<F>(
    policy: ThinkingPolicy,
    req: ChatCompletionRequest<F>,
    opened: bool,
    tools_active: bool,
)
    requires
        req.max_tokens >= 2,
    ensures
        prompted_thinking(
            policy,
            thinking_for(policy, req, tools_active),
            opened,
            req.max_tokens as int,
            tools_active,
        ).1 matches Some(b) ==> b < req.max_tokens && b <= policy.max_thinking_budget,
{
    let b = match req.thinking_choice(policy.thinking_default).1 {
        Some(b) => b,
        None => policy.max_thinking_budget,
    };
    law_budget_leaves_room(policy, b, req.max_tokens, tools_active);
    law_budget_leaves_room(policy, policy.max_thinking_budget, req.max_tokens, tools_active);
}

/// A budget that fits is granted whole, and one that does not is granted as far
/// as it fits: up to the ceiling of the model, and up to the part of the answer
/// that is for thinking.
pub proof fn law_budget_is_granted_as_far_as_it_fits(
    policy: ThinkingPolicy,
    budget: u32,
    max_tokens: usize,
    tools_active: bool,
)
    ensures
        ({
            let got = capped(policy, budget, max_tokens as int, tools_active);
            let tenths: int = if tools_active && policy.thinking_in_tools {
                7
            } else {
                9
            };
            &&& budget <= policy.max_thinking_budget && 10 * budget <= tenths * max_tokens ==> got
                == budget
            &&& budget > policy.max_thinking_budget && 10 * policy.max_thinking_budget <= tenths
                * max_tokens ==> got == policy.max_thinking_budget
            &&& got < budget && got < policy.max_thinking_budget ==> 10 * (got + 1) > tenths
                * max_tokens
            &&& 10 * got <= tenths * max_tokens || got <= 1
        }),
{
    let tenths = thinking_tenths(policy, tools_active);
    let n = max_tokens as int;
    assert(n * tenths == tenths * n) by (nonlinear_arith);
}

/// What a client asks for is what it gets, as far as it fits; where it asks for
/// none it gets none.
pub proof fn law_asked_thinking_is_granted<F>(
    policy: ThinkingPolicy,
    req: ChatCompletionRequest<F>,
    tools_active: bool,
)
    requires
        !policy.disabled,
        req.asked_thinking() is Some,
    ensures
        ({
            let (on, budget) = req.asked_thinking()->0;
            let got = thinking_for(policy, req, tools_active);
            &&& got.0 == on
            &&& on ==> (budget matches Some(b) ==> got.1 == Some(
                capped(policy, b, req.max_tokens as int, tools_active),
            ))
            &&& !on ==> got.1 is None
        }),
{
}

/// Where a client says nothing, the model thinks as it does by default, but
/// while tools are active only where it is meant to.
pub proof fn law_unasked_thinking_is_the_default<F>(
    policy: ThinkingPolicy,
    req: ChatCompletionRequest<F>,
    tools_active: bool,
    opened: bool,
)
    requires
        !policy.disabled,
        req.asked_thinking() is None,
    ensures
        thinking_for(policy, req, tools_active).0 == (policy.thinking_default && (!tools_active
            || policy.thinking_in_tools)),
        opened ==> prompted_thinking(
            policy,
            thinking_for(policy, req, tools_active),
            opened,
            req.max_tokens as int,
            tools_active,
        ).0,
        !opened ==> prompted_thinking(
            policy,
            thinking_for(policy, req, tools_active),
            opened,
            req.max_tokens as int,
            tools_active,
        ) == thinking_for(policy, req, tools_active),
{
}

} // verus!

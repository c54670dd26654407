//! Refusing calls that are known to fail.
use vstd::prelude::*;
use crate::decimal::{dec_i32, dec_u64};
use crate::decimal::{dec, dec_int};
use crate::failures::classification::F23ProgressMetrics;
use crate::failures::stall::find_last;
use crate::failures::stall::last_with_role;
use crate::messages::IncomingMessage;
use crate::messages::{
    incoming_views, lemma_message_views_insert, lemma_message_views_push, message_views,
    tool_message, MessageView,
};
use crate::text::{begins, has, same};
use crate::text::{contains, starts_with};

verus! {

// ---------------------------------------------------------------------------
// Repeating a failed result
// ---------------------------------------------------------------------------
/// Whether a failed result is worth repeating.
pub open spec fn is_worth_repeating(t: Seq<char>) -> bool {
    ||| starts_with(t, "[tool error]"@)
    ||| contains(t, "Exit code 127"@)
    ||| contains(t, "command not found"@)
    ||| contains(t, "[atlas-stall-guard]"@)
}

/// Whether a message is a refusal made here.
pub open spec fn is_stall_guard(m: MessageView) -> bool {
    m.role == "tool"@ && starts_with(m.text, "[tool error]\n[atlas-stall-guard]"@)
}

/// The failed tool result that has scrolled away: the last tool result, where
/// it failed and at least two messages follow it.
pub open spec fn scrolled_failure(msgs: Seq<MessageView>) -> Option<int> {
    match last_with_role(msgs, "tool"@, msgs.len()) {
        Some(i) => if is_worth_repeating(msgs[i].text) && msgs.len() - (i + 1) >= 2
            && !is_stall_guard(msgs.last()) {
            Some(i)
        } else {
            None
        },
        None => None,
    }
}

/// Decides [`is_stall_guard`].
fn guards(m: &IncomingMessage) -> (r: bool)
    ensures
        r == is_stall_guard(m@),
{
    same(m.role.as_str(), "tool") && begins(
        m.content.text.as_str(),
        "[tool error]\n[atlas-stall-guard]",
    )
}

/// Repeats the last tool result at the end, where it failed and has scrolled
/// away. Says whether it did.
pub fn f32_reposition_failed_tool_result(messages: &mut Vec<IncomingMessage>) -> (r: bool)
    ensures
        match scrolled_failure(message_views(old(messages)@)) {
            Some(i) => r && message_views(final(messages)@) == message_views(
                old(messages)@,
            ).push(message_views(old(messages)@)[i]),
            None => !r && final(messages)@ == old(messages)@,
        },
{
    broadcast use lemma_message_views_push;

    let ghost mv = message_views(messages@);
    let idx = match find_last(messages.as_slice(), "tool") {
        Some(i) => i,
        None => return false,
    };
    assert(mv[idx as int] == messages@[idx as int]@);
    let t = messages[idx].content.text.as_str();
    if !(begins(t, "[tool error]") || has(t, "Exit code 127") || has(t, "command not found")
        || has(t, "[atlas-stall-guard]")) {
        return false;
    }
    if messages.len() - (idx + 1) < 2 {
        return false;
    }
    assert(mv.last() == messages@.last()@);
    if guards(&messages[messages.len() - 1]) {
        return false;
    }
    let again = messages[idx].copy();
    messages.push(again);
    true
}

// ---------------------------------------------------------------------------
// Refusing to go on
// ---------------------------------------------------------------------------
/// The last assistant message and the identifier of its first call.
pub open spec fn refusal_anchor(msgs: Seq<MessageView>) -> Option<(int, Seq<char>)> {
    match last_with_role(msgs, "assistant"@, msgs.len()) {
        Some(i) => match msgs[i].tool_calls {
            Some(calls) => if calls.len() > 0 && calls[0].id is Some {
                Some((i, calls[0].id->0))
            } else {
                None
            },
            None => None,
        },
        None => None,
    }
}

/// How many refusals there are.
pub open spec fn guard_count(msgs: Seq<MessageView>) -> nat
    decreases msgs.len(),
{
    if msgs.len() == 0 {
        0
    } else {
        guard_count(msgs.drop_last()) + if is_stall_guard(msgs.last()) {
            1nat
        } else {
            0nat
        }
    }
}

/// Whether the call with this identifier was refused.
pub open spec fn is_guarded(msgs: Seq<MessageView>, id: Seq<char>) -> bool {
    exists|i: int|
        0 <= i < msgs.len() && is_stall_guard(#[trigger] msgs[i]) && msgs[i].tool_call_id == Some(
            id,
        )
}

/// The position behind the tool results that stand at `i`.
pub open spec fn past_tools(msgs: Seq<MessageView>, i: int) -> int
    decreases msgs.len() - i,
{
    if 0 <= i < msgs.len() && msgs[i].role == "tool"@ {
        past_tools(msgs, i + 1)
    } else {
        i
    }
}

/// What a refusal asks for. It grows firmer with the number of refusals.
pub open spec fn refusal_directive(prior: nat) -> Seq<char> {
    if prior == 0 {
        "STOP retrying. Reply to the user with a plain-text explanation of what is blocking and what you need from them. Do NOT call any tool again — your next response must contain text only."@
    } else if prior == 1 {
        "SECOND REFUSAL. The previous stall-guard was ignored — you continued issuing tool calls. This is not productive. Stop retrying immediately. Reply to the user in plain text with a description of what is blocking; do not call any tool, do not paste code, do not narrate next steps."@
    } else {
        "REPEATED REFUSALS. Atlas has injected multiple stall-guards and you continued generating tool calls. The agentic harness is not making progress. Acknowledge to the user that the task cannot be completed in this environment and explain why. Do not emit any further tool calls."@
    }
}

/// The text of a refusal.
pub open spec fn refusal_text(metrics: F23ProgressMetrics, prior: nat) -> Seq<char> {
    "[tool error]\n[atlas-stall-guard] This conversation has made "@ + dec(metrics.attempts as nat) + " tool calls with no progress (score="@ + dec_int(metrics.score as int)
        + "). Atlas has refused this tool call (refusal #"@ + dec(prior + 1) + "). "@ + refusal_directive(prior)
}

/// The messages with a refusal, where one is due: the calls reached `refuse`
/// without progress, the last assistant message made a call, and that call was
/// not refused yet. The refusal stands behind the results of that message.
pub open spec fn refused(msgs: Seq<MessageView>, metrics: F23ProgressMetrics, refuse: u32) -> Option<
    Seq<MessageView>,
> {
    if metrics.attempts < refuse || metrics.score > 0 {
        None
    } else {
        match refusal_anchor(msgs) {
            Some((i, id)) => if is_guarded(msgs, id) {
                None
            } else {
                Some(
                    msgs.insert(
                        past_tools(msgs, i + 1),
                        tool_message(refusal_text(metrics, guard_count(msgs)), id),
                    ),
                )
            },
            None => None,
        }
    }
}

proof fn lemma_past_tools(msgs: Seq<MessageView>, i: int)
    requires
        0 <= i <= msgs.len(),
    ensures
        i <= past_tools(msgs, i) <= msgs.len(),
    decreases msgs.len() - i,
{
    if i < msgs.len() && msgs[i].role == "tool"@ {
        lemma_past_tools(msgs, i + 1);
    }
}

/// The identifier of the first call of the last assistant message.
pub(crate) fn find_anchor(messages: &[IncomingMessage]) -> (r: Option<(usize, String)>)
    ensures
        match r {
            Some((i, id)) => refusal_anchor(message_views(messages@)) == Some((i as int, id@)) && i
                < messages@.len(),
            None => refusal_anchor(message_views(messages@)) is None,
        },
{
    let i = match find_last(messages, "assistant") {
        Some(i) => i,
        None => return None,
    };
    assert(message_views(messages@)[i as int] == messages@[i as int]@);
    match &messages[i].tool_calls {
        Some(calls) => {
            if calls.len() == 0 {
                return None;
            }
            assert(incoming_views(calls@)[0] == calls@[0]@);
            match &calls[0].id {
                Some(id) => Some((i, id.clone())),
                None => None,
            }
        },
        None => None,
    }
}

/// Adds a refusal, where one is due. Says whether it did.
pub fn f31_inject_hard_refusal(
    messages: &mut Vec<IncomingMessage>,
    metrics: F23ProgressMetrics,
    refuse: u32,
) -> (r: bool)
    ensures
        match refused(message_views(old(messages)@), metrics, refuse) {
            Some(after) => r && message_views(final(messages)@) == after,
            None => !r && final(messages)@ == old(messages)@,
        },
{
    broadcast use lemma_message_views_insert;

    if metrics.attempts < refuse || metrics.score > 0 {
        return false;
    }
    let ghost mv = message_views(messages@);
    let (at, id) = match find_anchor(messages.as_slice()) {
        Some(v) => v,
        None => return false,
    };
    proof {
        lemma_last_with_role(mv, "assistant"@, mv.len());
        reveal_strlit("assistant");
        reveal_strlit("tool");
        assert("tool"@.len() != "assistant"@.len());
    }
    let mut prior: u64 = 0;
    let mut i: usize = 0;
    assert(mv.take(0) =~= Seq::<MessageView>::empty());
    while i < messages.len()
        invariant
            i <= messages.len(),
            messages == old(messages),
            mv == message_views(messages@),
            metrics.attempts >= refuse && metrics.score <= 0,
            refusal_anchor(mv) == Some((at as int, id@)),
            prior == guard_count(mv.take(i as int)),
            !is_stall_guard(mv[at as int]),
            prior + (if i > at {
                1int
            } else {
                0int
            }) <= i,
            forall|j: int|
                0 <= j < i && is_stall_guard(#[trigger] mv[j]) ==> mv[j].tool_call_id != Some(id@),
        decreases messages@.len() - i,
    {
        assert(mv[i as int] == messages@[i as int]@);
        assert(mv.take(i + 1).drop_last() =~= mv.take(i as int));
        if guards(&messages[i]) {
            match &messages[i].tool_call_id {
                Some(x) => {
                    if same(x.as_str(), id.as_str()) {
                        assert(is_stall_guard(mv[i as int]));
                        return false;
                    }
                },
                None => {},
            }
            prior = prior + 1;
        }
        i += 1;
    }
    assert(mv.take(i as int) =~= mv);
    let mut text = "[tool error]\n[atlas-stall-guard] This conversation has made ".to_owned();
    text.append(dec_u64(metrics.attempts as u64).as_str());
    text.append(" tool calls with no progress (score=");
    text.append(dec_i32(metrics.score).as_str());
    text.append("). Atlas has refused this tool call (refusal #");
    let next: u64 = prior + 1;
    text.append(dec_u64(next).as_str());
    text.append("). ");
    if prior == 0 {
        text.append("STOP retrying. Reply to the user with a plain-text explanation of what is blocking and what you need from them. Do NOT call any tool again — your next response must contain text only.");
    } else if prior == 1 {
        text.append("SECOND REFUSAL. The previous stall-guard was ignored — you continued issuing tool calls. This is not productive. Stop retrying immediately. Reply to the user in plain text with a description of what is blocking; do not call any tool, do not paste code, do not narrate next steps.");
    } else {
        text.append("REPEATED REFUSALS. Atlas has injected multiple stall-guards and you continued generating tool calls. The agentic harness is not making progress. Acknowledge to the user that the task cannot be completed in this environment and explain why. Do not emit any further tool calls.");
    }
    proof {
        assert(text@ == refusal_text(metrics, guard_count(mv)));
        lemma_past_tools(mv, at + 1);
    }
    let mut k: usize = at + 1;
    while k < messages.len() && same(messages[k].role.as_str(), "tool")
        invariant
            at < k <= messages@.len(),
            mv == message_views(messages@),
            past_tools(mv, at + 1) == past_tools(mv, k as int),
        decreases messages@.len() - k,
    {
        assert(mv[k as int] == messages@[k as int]@);
        k += 1;
    }
    proof {
        if k < messages.len() {
            assert(mv[k as int] == messages@[k as int]@);
        }
    }
    messages.insert(k, IncomingMessage::synthetic_tool(text, id));
    true
}

proof fn lemma_last_with_role_is(msgs: Seq<MessageView>, role: Seq<char>, n: nat, i: int)
    requires
        0 <= i < n <= msgs.len(),
        msgs[i].role == role,
        forall|j: int| i < j < n ==> (#[trigger] msgs[j]).role != role,
    ensures
        last_with_role(msgs, role, n) == Some(i),
    decreases n,
{
    if n - 1 > i {
        lemma_last_with_role_is(msgs, role, (n - 1) as nat, i);
    }
}

proof fn lemma_last_with_role(msgs: Seq<MessageView>, role: Seq<char>, n: nat)
    requires
        n <= msgs.len(),
    ensures
        match last_with_role(msgs, role, n) {
            Some(i) => 0 <= i < n && msgs[i].role == role && forall|j: int|
                i < j < n ==> (#[trigger] msgs[j]).role != role,
            None => forall|j: int| 0 <= j < n ==> (#[trigger] msgs[j]).role != role,
        },
    decreases n,
{
    if n > 0 && msgs[n - 1].role != role {
        lemma_last_with_role(msgs, role, (n - 1) as nat);
    }
}

/// A call is refused once: after a refusal no other follows until the
/// assistant speaks again.
pub proof fn law_refused_once(
    msgs: Seq<MessageView>,
    first: F23ProgressMetrics,
    second: F23ProgressMetrics,
    refuse: u32,
)
    requires
        refused(msgs, first, refuse) is Some,
    ensures
        refused(refused(msgs, first, refuse)->0, second, refuse) is None,
{
    let after = refused(msgs, first, refuse)->0;
    let (i, id) = refusal_anchor(msgs)->0;
    lemma_last_with_role(msgs, "assistant"@, msgs.len());
    lemma_past_tools(msgs, i + 1);
    let at = past_tools(msgs, i + 1);
    let text = refusal_text(first, guard_count(msgs));
    let guard = tool_message(text, id);
    reveal_strlit("assistant");
    reveal_strlit("tool");
    assert(after == msgs.insert(at, guard));
    assert(guard.role != "assistant"@) by {
        assert("tool"@.len() != "assistant"@.len());
    }
    assert forall|j: int| i < j < after.len() implies (#[trigger] after[j]).role
        != "assistant"@ by {
        if j < at {
            assert(after[j] == msgs[j]);
        } else if j > at {
            assert(after[j] == msgs[j - 1]);
        }
    }
    assert(after[i] == msgs[i]);
    lemma_last_with_role_is(after, "assistant"@, after.len(), i);
    assert(refusal_anchor(after) == Some((i, id)));
    assert(starts_with(text, "[tool error]\n[atlas-stall-guard]"@)) by {
        let p = "[tool error]\n[atlas-stall-guard]"@;
        reveal_strlit("[tool error]\n[atlas-stall-guard]");
        reveal_strlit("[tool error]\n[atlas-stall-guard] This conversation has made ");
        assert("[tool error]\n[atlas-stall-guard] This conversation has made "@.subrange(0, p.len() as int) =~= p);
        assert(text.subrange(0, p.len() as int) =~= p);
    }
    assert(is_stall_guard(after[at]));
    assert(is_guarded(after, id));
}

} // verus!

//! What the model is told of its failures, and what is left alone.
use vstd::prelude::*;
use crate::decimal::{dec, dec_int};
use crate::failures::breaker::{
    breaker_banner, class_label, failed_keys, history, history_call, history_calls, history_result,
    known_failure, last_class, match_line, F39PermanentFailureMatch, Failure, MatchView,
};
use crate::failures::calls::{assistant_calls, CallKey};
use crate::failures::circuit::{
    guard_count, is_stall_guard, is_worth_repeating, past_tools, refusal_anchor, refusal_directive,
    refusal_text, refused, scrolled_failure,
};
use crate::failures::classification::{failure_class, F23ProgressMetrics, F37FailureClass};
use crate::failures::notice::{notice, renewed, times_text, with_notice};
use crate::failures::stall::{
    bucket_line, ends_in_error, fact_line, facts_body, is_binary_name, is_name_char, is_stall_list,
    last_user_or_tool, last_with_role, looks_like_error, missing_binary, reminder_notice,
    stall_text, warn_lines, with_facts, with_reminder, F7_STALL_WARN_THRESHOLD,
};
use crate::keyed::{capped, lemma_place, place, times};
use crate::messages::MessageView;
use crate::text::{
    contains, find, law_last_occurrence, lemma_stands_between, lemma_stands_through, occurs_at,
    rfind, CharSet,
};
use crate::tool_args::primary_arg;
use crate::tools::CallView;
use crate::trim::{
    after_last, join, law_after_last_is_the_end, law_parts_stand_in_their_join,
    law_trimmed_text_is_kept, law_trimming_takes_the_ends, trim, trim_end, trim_start,
};

verus! {

// ---------------------------------------------------------------------------
// Repeated calls
// ---------------------------------------------------------------------------
proof fn lemma_warn_lines(order: Seq<(CallKey, u32)>, i: int)
    requires
        0 <= i < order.len(),
        order[i].1 >= F7_STALL_WARN_THRESHOLD,
    ensures
        warn_lines(order).contains(bucket_line(order[i].0, order[i].1)),
    decreases order.len(),
{
    let less = order.drop_last();
    let before = warn_lines(less);
    let all = warn_lines(order);
    if i < less.len() {
        assert(less[i] == order[i]);
        lemma_warn_lines(less, i);
        let k = choose|k: int|
            0 <= k < before.len() && before[k] == bucket_line(order[i].0, order[i].1);
        assert(all[k] == before[k]);
    } else {
        assert(all[before.len() as int] == bucket_line(order[i].0, order[i].1));
    }
}

proof fn lemma_no_warn_lines(order: Seq<(CallKey, u32)>)
    requires
        forall|i: int| 0 <= i < order.len() ==> (#[trigger] order[i]).1 < F7_STALL_WARN_THRESHOLD,
    ensures
        warn_lines(order).len() == 0,
    decreases order.len(),
{
    if order.len() > 0 {
        let less = order.drop_last();
        assert forall|i: int| 0 <= i < less.len() implies (#[trigger] less[i]).1
            < F7_STALL_WARN_THRESHOLD by {
            assert(less[i] == order[i]);
        }
        lemma_no_warn_lines(less);
        assert(order[order.len() - 1].1 < F7_STALL_WARN_THRESHOLD);
    }
}

/// The model is told of every call that it made too often: which tool, with what
/// and how many times. Where there is none, it is told nothing.
pub proof fn law_repeated_calls_are_told(
    m: Map<CallKey, u32>,
    order: Seq<(CallKey, u32)>,
    sorted: Seq<Seq<char>>,
    key: CallKey,
    refuse: bool,
)
    requires
        is_stall_list(m, order, sorted),
    ensures
        m.contains_key(key) && m[key] >= F7_STALL_WARN_THRESHOLD ==> {
            &&& sorted.len() > 0
            &&& contains(stall_text(sorted, refuse), key.0)
            &&& contains(stall_text(sorted, refuse), key.1)
            &&& contains(stall_text(sorted, refuse), dec(m[key] as nat))
        },
        (forall|k: CallKey| #[trigger] m.contains_key(k) ==> m[k] < F7_STALL_WARN_THRESHOLD)
            ==> sorted.len() == 0,
{
    sorted.to_multiset_ensures();
    warn_lines(order).to_multiset_ensures();
    if m.contains_key(key) && m[key] >= F7_STALL_WARN_THRESHOLD {
        let i = place(order, key)->0;
        lemma_place(order, i);
        lemma_warn_lines(order, i);
        let line = bucket_line(key, m[key]);
        assert(warn_lines(order).contains(line));
        assert(sorted.to_multiset().count(line) > 0);
        assert(sorted.contains(line));
        let k = choose|k: int| 0 <= k < sorted.len() && sorted[k] == line;
        law_parts_stand_in_their_join(sorted, "\n"@, k);
        let text = stall_text(sorted, refuse);
        let directive = if refuse {
            "STOP retrying. Respond to the user with a plain text message explaining what is blocking and what you need from them. Do NOT call any tool again — your next response must contain text only."@
        } else {
            "The retries are not making progress. Stop and explain to the user what is blocking and what you need from them. Do not call these tools again with the same arguments."@
        };
        let head =
            "\n\n<system-reminder>\nYou have already issued the following tool calls multiple times in this conversation:\n"@;
        let tail = "\n"@ + directive + "\n</system-reminder>"@;
        lemma_stands_between(head, join(sorted, "\n"@), tail);
        assert(text =~= head + join(sorted, "\n"@) + tail);
        lemma_stands_through(text, join(sorted, "\n"@), line);
        let count = dec(m[key] as nat);
        let rest = "("@ + key.1 + ") × "@ + count;
        lemma_stands_between("- "@, key.0, rest);
        assert(line =~= "- "@ + key.0 + rest);
        lemma_stands_between("- "@ + key.0 + "("@, key.1, ") × "@ + count);
        assert(line =~= "- "@ + key.0 + "("@ + key.1 + (") × "@ + count));
        let none = Seq::<char>::empty();
        lemma_stands_between("- "@ + key.0 + "("@ + key.1 + ") × "@, count, none);
        assert(line =~= "- "@ + key.0 + "("@ + key.1 + ") × "@ + count + none);
        lemma_stands_through(text, line, key.0);
        lemma_stands_through(text, line, key.1);
        lemma_stands_through(text, line, count);
    }
    if forall|k: CallKey| #[trigger] m.contains_key(k) ==> m[k] < F7_STALL_WARN_THRESHOLD {
        assert forall|i: int| 0 <= i < order.len() implies (#[trigger] order[i]).1
            < F7_STALL_WARN_THRESHOLD by {
            lemma_place(order, i);
        }
        lemma_no_warn_lines(order);
        assert(sorted.len() == sorted.to_multiset().len());
    }
}

proof fn lemma_last_user_or_tool(msgs: Seq<MessageView>, n: nat)
    requires
        n <= msgs.len(),
    ensures
        match last_user_or_tool(msgs, n) {
            Some(i) => 0 <= i < n && (msgs[i].role == "user"@ || msgs[i].role == "tool"@)
                && forall|j: int|
                i < j < n ==> (#[trigger] msgs[j]).role != "user"@ && msgs[j].role != "tool"@,
            None => forall|j: int|
                0 <= j < n ==> (#[trigger] msgs[j]).role != "user"@ && msgs[j].role != "tool"@,
        },
    decreases n,
{
    if n > 0 && msgs[n - 1].role != "user"@ && msgs[n - 1].role != "tool"@ {
        lemma_last_user_or_tool(msgs, (n - 1) as nat);
    }
}

/// A reminder is put behind the text of the last message of the user or of a
/// tool; nothing else of the conversation changes. Where there is no such
/// message it becomes one of the system's.
pub proof fn law_reminder_is_put_at_the_end(msgs: Seq<MessageView>, reminder: Seq<char>, i: int)
    requires
        0 <= i < msgs.len(),
    ensures
        ({
            let after = with_reminder(msgs, reminder);
            let speaks = msgs[i].role == "user"@ || msgs[i].role == "tool"@;
            let last = forall|j: int|
                i < j < msgs.len() ==> (#[trigger] msgs[j]).role != "user"@ && msgs[j].role
                    != "tool"@;
            &&& after[i].role == msgs[i].role
            &&& after[i].tool_calls == msgs[i].tool_calls
            &&& after[i].tool_call_id == msgs[i].tool_call_id
            &&& speaks && last ==> after[i].text == msgs[i].text + reminder && after.len()
                == msgs.len()
            &&& !(speaks && last) ==> after[i] == msgs[i]
            &&& (forall|j: int|
                0 <= j < msgs.len() ==> (#[trigger] msgs[j]).role != "user"@ && msgs[j].role
                    != "tool"@) ==> after.len() == msgs.len() + 1 && after.last().role
                == "system"@ && after.last().text == trim_start(reminder, CharSet::White)
        }),
{
    lemma_last_user_or_tool(msgs, msgs.len());
    match last_user_or_tool(msgs, msgs.len()) {
        Some(k) => {
            assert(msgs[k].role == "user"@ || msgs[k].role == "tool"@);
        },
        None => {},
    }
}

// ---------------------------------------------------------------------------
// Notices
// ---------------------------------------------------------------------------
/// A notice reaches the model at the head of its system prompt, and nothing
/// else of the conversation is touched: where there is no notice yet, all that
/// the prompt said follows.
pub proof fn law_notice_reaches_the_model(
    msgs: Seq<MessageView>,
    block: Seq<char>,
    open: Seq<char>,
    close: Seq<char>,
    i: int,
)
    ensures
        ({
            let after = with_notice(msgs, block, open, close);
            let has_prompt = msgs.len() > 0 && msgs[0].role == "system"@;
            &&& after.len() > 0
            &&& after[0].role == "system"@
            &&& contains(after[0].text, trim_end(block, CharSet::White))
            &&& has_prompt && find(msgs[0].text, open) is None ==> after[0].text == block
                + msgs[0].text
            &&& has_prompt ==> after.len() == msgs.len() && (1 <= i < msgs.len() ==> after[i]
                == msgs[i])
            &&& !has_prompt ==> after.len() == msgs.len() + 1 && (0 <= i < msgs.len() ==> after[i
                + 1] == msgs[i])
        }),
{
    if msgs.len() > 0 && msgs[0].role == "system"@ {
        lemma_renewed_holds(msgs[0].text, block, open, close);
    } else {
        let t = trim_end(block, CharSet::White);
        let none = Seq::<char>::empty();
        lemma_stands_between(none, t, none);
        assert(none + t + none =~= t);
    }
}

proof fn lemma_renewed_holds(
    text: Seq<char>,
    block: Seq<char>,
    open: Seq<char>,
    close: Seq<char>,
)
    ensures
        contains(renewed(text, block, open, close), trim_end(block, CharSet::White)),
{
    let t = trim_end(block, CharSet::White);
    let new = renewed(text, block, open, close);
    let none = Seq::<char>::empty();
    assert(contains(block, t)) by {
        law_trimming_takes_the_ends(block, CharSet::White);
        lemma_stands_between(none, t, block.skip(t.len() as int));
        assert(none + t + block.skip(t.len() as int) =~= block);
    }
    assert(contains(block + text, block)) by {
        lemma_stands_between(none, block, text);
        assert(none + block + text =~= block + text);
    }
    match find(text, open) {
        Some(s) => match crate::text::find_from(text, close + "\n\n"@, s) {
            Some(e) => {
                let rest = text.skip(e + close.len() + 2);
                assert(new == text.take(s) + block + rest);
                lemma_stands_between(text.take(s), block, rest);
                lemma_stands_through(new, block, t);
            },
            None => match crate::text::find_from(text, close, s) {
                Some(e) => {
                    let rest = text.skip(e + close.len());
                    assert(new == text.take(s) + t + rest);
                    lemma_stands_between(text.take(s), t, rest);
                },
                None => {
                    lemma_stands_through(new, block, t);
                },
            },
        },
        None => {
            lemma_stands_through(new, block, t);
        },
    }
}

/// A notice holds the reminder that it is made for.
pub proof fn law_notice_holds_the_reminder(reminder: Seq<char>)
    ensures
        contains(reminder_notice(reminder), trim(reminder, CharSet::SpaceFeed)),
{
    let t = trim(reminder, CharSet::SpaceFeed);
    let open = "<atlas_runtime_notice>"@;
    let close = "</atlas_runtime_notice>"@;
    lemma_stands_between(open + "\n"@, t, "\n"@ + close + "\n\n"@);
    assert(reminder_notice(reminder) =~= open + "\n"@ + t + ("\n"@ + close + "\n\n"@));
}

/// Every command that is not there is named, with how often it was missed.
pub proof fn law_facts_are_told(facts: Seq<(Seq<char>, u32)>, i: int)
    requires
        0 <= i < facts.len(),
    ensures
        contains(facts_body(facts), facts[i].0),
        contains(facts_body(facts), dec(facts[i].1 as nat)),
{
    let parts = facts.map_values(|f: (Seq<char>, u32)| fact_line(f));
    let f = facts[i];
    let line = fact_line(f);
    assert(parts[i] == line);
    law_parts_stand_in_their_join(parts, "\n"@, i);
    let body = facts_body(facts);
    let head =
        "\nThe following commands are NOT available in this environment. Do NOT attempt to use them — the failure is permanent and retrying with cosmetic variations (mkdir prefix, cd path, flag order) will not change the outcome:\n"@;
    lemma_stands_between(head, join(parts, "\n"@), "\n"@);
    assert(body =~= head + join(parts, "\n"@) + "\n"@);
    lemma_stands_through(body, join(parts, "\n"@), line);
    let mid = "` (returned 'command not found' "@;
    let count = times_text(f.1);
    lemma_stands_between("- `"@, f.0, mid + count + ")"@);
    assert(line =~= "- `"@ + f.0 + (mid + count + ")"@));
    lemma_stands_between("- `"@ + f.0 + mid, count, ")"@);
    lemma_count_told(f.1);
    lemma_stands_through(line, count, dec(f.1 as nat));
    lemma_stands_through(body, line, f.0);
    lemma_stands_through(body, line, dec(f.1 as nat));
}

proof fn lemma_count_told(n: u32)
    ensures
        contains(times_text(n), dec(n as nat)),
{
    let none = Seq::<char>::empty();
    let s = if n == 1 {
        ""@
    } else {
        "s"@
    };
    lemma_stands_between(none, dec(n as nat), " time"@ + s);
    assert(times_text(n) =~= none + dec(n as nat) + (" time"@ + s));
}

/// Facts reach the model at the head of its system prompt; without any the
/// conversation stays as it is.
pub proof fn law_facts_reach_the_model(msgs: Seq<MessageView>, facts: Seq<(Seq<char>, u32)>, i: int)
    requires
        0 <= i < facts.len(),
    ensures
        with_facts(msgs, facts).len() > 0,
        with_facts(msgs, facts)[0].role == "system"@,
        contains(with_facts(msgs, facts)[0].text, facts[i].0),
        with_facts(msgs, Seq::empty()) == msgs,
{
    let open = "<environment_facts>"@;
    let close = "</environment_facts>"@;
    let body = facts_body(facts);
    let block = notice(open, body, close);
    law_notice_reaches_the_model(msgs, block, open, close, 0);
    law_facts_are_told(facts, i);
    law_trimming_takes_the_ends(block, CharSet::White);
    let t = trim_end(block, CharSet::White);
    let core = open + body + close;
    reveal_strlit("</environment_facts>");
    assert(block.take(core.len() as int) =~= core);
    assert(block[core.len() - 1] == close[close.len() - 1]);
    if t.len() < core.len() {
        assert(block.skip(t.len() as int)[core.len() - 1 - t.len()] == '>');
        assert(CharSet::White.has('>'));
    }
    let none = Seq::<char>::empty();
    lemma_stands_between(open, body, close + t.skip(core.len() as int));
    assert(t =~= open + body + (close + t.skip(core.len() as int)));
    lemma_stands_through(t, body, facts[i].0);
    lemma_stands_through(with_facts(msgs, facts)[0].text, t, facts[i].0);
}

/// A shell's word that a command is missing names it.
pub proof fn law_missing_command_is_read(shell: Seq<char>, name: Seq<char>)
    requires
        is_binary_name(name),
        shell.len() > 0 && !CharSet::White.has(shell[0]),
    ensures
        missing_binary(shell + ": "@ + name + ": command not found"@) == Some(name),
        missing_binary(name + ": command not found"@) == Some(name),
{
    reveal_strlit(": ");
    assert((shell + ": "@)[0] == shell[0]);
    lemma_missing_command(shell + ": "@, name);
    lemma_missing_command(Seq::empty(), name);
    assert(Seq::<char>::empty() + name + ": command not found"@ =~= name
        + ": command not found"@);
}

proof fn lemma_missing_command(head: Seq<char>, name: Seq<char>)
    requires
        is_binary_name(name),
        head.len() > 0 ==> !CharSet::White.has(head[0]) && head.last() == ' ',
    ensures
        missing_binary(head + name + ": command not found"@) == Some(name),
{
    let says = ": command not found"@;
    reveal_strlit(": command not found");
    let line = head + name + says;
    assert forall|i: int| 0 <= i < name.len() implies !CharSet::Word.has(#[trigger] name[i])
        && !CharSet::White.has(name[i]) by {
        assert(is_name_char(name[i]));
    }
    if head.len() == 0 {
        assert(line[0] == name[0]);
    } else {
        assert(line[0] == head[0]);
    }
    assert(line.last() == 'd');
    law_trimmed_text_is_kept(line, CharSet::White);
    let at = (head.len() + name.len()) as int;
    assert(line.subrange(at, at + says.len()) =~= says);
    assert(occurs_at(line, says, at));
    law_last_occurrence(line, says);
    let i = rfind(line, says)->0;
    assert(i == at);
    assert(line.take(at) =~= head + name);
    let w = after_last(head + name, CharSet::Word);
    law_after_last_is_the_end(head + name, CharSet::Word);
    let from = (head + name).len() - w.len();
    if from > head.len() {
        assert((head + name)[from - 1] == name[from - 1 - head.len()]);
    }
    if from < head.len() {
        assert(w[head.len() - 1 - from] == (head + name)[head.len() - 1]);
        assert(CharSet::Word.has(' '));
    }
    assert(w =~= name);
    law_trimmed_text_is_kept(name, CharSet::White);
}

// ---------------------------------------------------------------------------
// Errors
// ---------------------------------------------------------------------------
/// The last result of a tool decides whether the conversation ends in an error;
/// what others say after it does not.
pub proof fn law_last_result_decides(msgs: Seq<MessageView>, m: MessageView)
    ensures
        m.role == "tool"@ ==> ends_in_error(msgs.push(m)) == looks_like_error(m.text),
        m.role != "tool"@ ==> ends_in_error(msgs.push(m)) == ends_in_error(msgs),
{
    let all = msgs.push(m);
    assert(all[all.len() - 1] == m);
    if m.role != "tool"@ {
        lemma_last_with_role(msgs, all, "tool"@, msgs.len());
        lemma_role_index(msgs, "tool"@, msgs.len());
    }
}

proof fn lemma_last_with_role(
    msgs: Seq<MessageView>,
    all: Seq<MessageView>,
    role: Seq<char>,
    n: nat,
)
    requires
        n <= msgs.len() <= all.len(),
        forall|i: int| 0 <= i < msgs.len() ==> #[trigger] all[i] == msgs[i],
    ensures
        last_with_role(all, role, n) == last_with_role(msgs, role, n),
    decreases n,
{
    if n > 0 {
        assert(all[n - 1] == msgs[n - 1]);
        lemma_last_with_role(msgs, all, role, (n - 1) as nat);
    }
}

proof fn lemma_role_index(msgs: Seq<MessageView>, role: Seq<char>, n: nat)
    requires
        n <= msgs.len(),
    ensures
        match last_with_role(msgs, role, n) {
            Some(i) => 0 <= i < n && msgs[i].role == role && forall|j: int|
                i < j < n ==> (#[trigger] msgs[j]).role != role,
            None => forall|j: int| 0 <= j < n ==> (#[trigger] msgs[j]).role != role,
        },
    decreases n,
{
    if n > 0 && msgs[n - 1].role != role {
        lemma_role_index(msgs, role, (n - 1) as nat);
    }
}

/// Each of these phrases marks a result as an error.
pub proof fn law_error_phrases(t: Seq<char>)
    ensures
        contains(t, "command not found"@) ==> looks_like_error(t),
        contains(t, ": not found"@) ==> looks_like_error(t),
        contains(t, "Exit code 127"@) ==> looks_like_error(t),
        contains(t, "Permission denied"@) ==> looks_like_error(t),
        contains(t, "No such file or directory"@) ==> looks_like_error(t),
        contains(t, "already exists"@) ==> looks_like_error(t),
        contains(t, "cannot be run on existing"@) ==> looks_like_error(t),
        contains(t, "before overwriting it"@) ==> looks_like_error(t),
        contains(t, "cannot access"@) ==> looks_like_error(t),
        contains(t, "TypeError"@) ==> looks_like_error(t),
        contains(t, "ERR_INVALID_ARG_VALUE"@) ==> looks_like_error(t),
        contains(t, "ENOENT"@) || contains(t, "EISDIR"@) || contains(t, "EACCES"@)
            ==> looks_like_error(t),
        contains(t, "[atlas-stall-guard]"@) || contains(t, "[atlas-permanent-failure]"@)
            ==> looks_like_error(t),
        occurs_at(t, "[tool error]"@, 0) || occurs_at(t, "Error:"@, 0) ==> looks_like_error(t),
{
}

/// The classes of permanent failures, by what their texts say; a refusal of the
/// server's own wins over what it quotes, and a missing command over the rest.
pub proof fn law_failures_have_classes(t: Seq<char>)
    ensures
        contains(t, "[atlas-stall-guard]"@) || contains(t, "[atlas-permanent-failure]"@)
            <==> failure_class(t) == Some(F37FailureClass::StallGuard),
        failure_class(t) != Some(F37FailureClass::StallGuard) ==> (contains(
            t,
            "command not found"@,
        ) || contains(t, ": not found"@) || contains(t, "Exit code 127"@) <==> failure_class(t)
            == Some(F37FailureClass::BinaryMissing)),
        failure_class(t) == Some(F37FailureClass::AlreadyExists) ==> contains(t, "already exists"@)
            || contains(t, "cannot be run on existing"@) || contains(t, "exists"@),
        contains(t, "already exists"@) || contains(t, "cannot be run on existing"@)
            ==> failure_class(t) == Some(F37FailureClass::AlreadyExists) || failure_class(t)
            == Some(F37FailureClass::BinaryMissing) || failure_class(t) == Some(
            F37FailureClass::StallGuard,
        ),
        failure_class(t) == Some(F37FailureClass::PermissionDenied) ==> contains(
            t,
            "Permission denied"@,
        ) || contains(t, "EACCES"@),
        failure_class(t) == Some(F37FailureClass::NotFound) ==> contains(
            t,
            "No such file or directory"@,
        ) || contains(t, "ENOENT"@) || contains(t, "cannot access"@),
        failure_class(t) == Some(F37FailureClass::InvalidArgument) ==> contains(t, "TypeError"@)
            || contains(t, "ERR_INVALID_ARG_VALUE"@) || contains(t, "before overwriting it"@),
        failure_class(t) is None ==> !contains(t, "Permission denied"@) && !contains(
            t,
            "EACCES"@,
        ) && !contains(t, "No such file or directory"@) && !contains(t, "ENOENT"@) && !contains(
            t,
            "cannot access"@,
        ) && !contains(t, "TypeError"@) && !contains(t, "ERR_INVALID_ARG_VALUE"@) && !contains(
            t,
            "before overwriting it"@,
        ) && !contains(t, "already exists"@) && !contains(t, "command not found"@),
        failure_class(t) is Some && !contains(t, "destination"@) ==> looks_like_error(t),
{
}

// ---------------------------------------------------------------------------
// Failures that do not pass
// ---------------------------------------------------------------------------
/// A call whose result is a permanent failure is remembered: with the tool, what
/// it was about, and why it failed. One that succeeds is not, and what was
/// remembered before stays.
pub proof fn law_failed_calls_are_remembered(
    msgs: Seq<MessageView>,
    ask: MessageView,
    reply: MessageView,
    c: CallView,
    id: Seq<char>,
    arg: Seq<char>,
)
    requires
        ask.role == "assistant"@,
        ask.tool_calls == Some(seq![c]),
        c.id == Some(id),
        id.len() > 0,
        primary_arg(c.name, c.arguments) == Some(arg),
        reply.role == "tool"@,
        reply.tool_call_id == Some(id),
    ensures
        ({
            let before = history(msgs).failures;
            let after = history(msgs.push(ask).push(reply)).failures;
            match failure_class(reply.text) {
                Some(class) => after == before.push(((c.name, arg), class)),
                None => after == before,
            }
        }),
{
    reveal_strlit("assistant");
    reveal_strlit("tool");
    assert("assistant"@.len() != "tool"@.len());
    let mid = msgs.push(ask);
    let all = mid.push(reply);
    assert(all.drop_last() =~= mid);
    assert(mid.drop_last() =~= msgs);
    assert(assistant_calls(ask) == seq![c]);
    reveal_with_fuel(history_calls, 2);
    let one = seq![c];
    assert(one.drop_last() =~= Seq::<CallView>::empty());
    let h = history(msgs);
    assert(history_calls(h, one.drop_last()) == h);
    assert(history_calls(h, one) == history_call(h, c));
    assert(mid.last() == ask && all.last() == reply);
    assert(history(mid) == history_call(h, c));
    assert(history(all) == history_result(history(mid), Some(id), reply.text));
}

/// A call that failed for good is known at once, by the class of its last
/// failure and the number of them.
pub proof fn law_failure_is_known(fs: Seq<Failure>, key: CallKey, class: F37FailureClass)
    ensures
        known_failure(fs.push((key, class)), key) == Some(
            MatchView { key, class, count: capped(times(failed_keys(fs), key) + 1) },
        ),
{
    let all = fs.push((key, class));
    assert(all.drop_last() =~= fs);
    assert(failed_keys(all).drop_last() =~= failed_keys(fs));
    assert(failed_keys(all).last() == key);
    assert(last_class(all, key) == class);
}

/// The banner names every call that is repeated in vain: the tool, what it was
/// about, why it failed and how often.
pub proof fn law_banner_names_every_call(matches: Seq<F39PermanentFailureMatch>, i: int)
    requires
        0 <= i < matches.len(),
    ensures
        contains(breaker_banner(matches), matches[i].tool@),
        contains(breaker_banner(matches), matches[i].primary_arg@),
        contains(breaker_banner(matches), class_label(matches[i].class)),
        contains(breaker_banner(matches), dec(matches[i].prior_failure_count as nat)),
{
    let m = matches[i];
    let parts = matches.map_values(|m: F39PermanentFailureMatch| match_line(m));
    let line = match_line(m);
    assert(parts[i] == line);
    law_parts_stand_in_their_join(parts, "\n"@, i);
    let whole = breaker_banner(matches);
    let lines = join(parts, "\n"@);
    lemma_banner_lines(matches);
    lemma_stands_through(whole, lines, line);
    let label = class_label(m.class);
    let count = times_text(m.prior_failure_count);
    let end = " (failed "@ + count + " previously)"@;
    lemma_stands_between("- "@, m.tool@, "("@ + m.primary_arg@ + ") — "@ + label + end);
    assert(line =~= "- "@ + m.tool@ + ("("@ + m.primary_arg@ + ") — "@ + label + end));
    lemma_stands_between("- "@ + m.tool@ + "("@, m.primary_arg@, ") — "@ + label + end);
    assert(line =~= "- "@ + m.tool@ + "("@ + m.primary_arg@ + (") — "@ + label + end));
    lemma_stands_between("- "@ + m.tool@ + "("@ + m.primary_arg@ + ") — "@, label, end);
    assert(line =~= "- "@ + m.tool@ + "("@ + m.primary_arg@ + ") — "@ + label + end);
    lemma_stands_between(
        "- "@ + m.tool@ + "("@ + m.primary_arg@ + ") — "@ + label + " (failed "@,
        count,
        " previously)"@,
    );
    assert(line =~= "- "@ + m.tool@ + "("@ + m.primary_arg@ + ") — "@ + label + " (failed "@ + count
        + " previously)"@);
    lemma_count_told(m.prior_failure_count);
    lemma_stands_through(line, count, dec(m.prior_failure_count as nat));
    lemma_stands_through(whole, line, m.tool@);
    lemma_stands_through(whole, line, m.primary_arg@);
    lemma_stands_through(whole, line, label);
    lemma_stands_through(whole, line, dec(m.prior_failure_count as nat));
}

proof fn lemma_banner_lines(matches: Seq<F39PermanentFailureMatch>)
    ensures
        contains(
            breaker_banner(matches),
            join(matches.map_values(|m: F39PermanentFailureMatch| match_line(m)), "\n"@),
        ),
{
    let lines = join(matches.map_values(|m: F39PermanentFailureMatch| match_line(m)), "\n"@);
    let whole = breaker_banner(matches);
    let head =
        "<atlas_circuit_breaker>\nCRITICAL: You are repeating tool calls that have already FAILED with PERMANENT errors. The retries below cannot succeed in this environment — the failure is structural (binary missing, file/path absent, permission denied, etc.) and will not change between attempts:\n"@;
    let k = head.len() as int;
    assert(whole.subrange(k, k + lines.len()) =~= lines);
    assert(occurs_at(whole, lines, k));
}

/// The labels of the classes tell them apart.
pub proof fn law_labels_differ(a: F37FailureClass, b: F37FailureClass)
    ensures
        class_label(a) == class_label(b) ==> a == b,
{
    reveal_strlit("binary not installed (command not found / exit 127)");
    reveal_strlit("destination already exists");
    reveal_strlit("permission denied");
    reveal_strlit("path/file not found");
    reveal_strlit("invalid argument or environment-state error");
    reveal_strlit("Atlas stall-guard refused this call");
    assert("binary not installed (command not found / exit 127)"@[0] == 'b');
    assert("destination already exists"@[0] == 'd');
    assert("permission denied"@[0] == 'p');
    assert("permission denied"@[1] == 'e');
    assert("path/file not found"@[0] == 'p');
    assert("path/file not found"@[1] == 'a');
    assert("invalid argument or environment-state error"@[0] == 'i');
    assert("Atlas stall-guard refused this call"@[0] == 'A');
}

/// What is repeated at the end of a conversation is the last result of a tool,
/// one that failed and that two messages or more have followed.
pub proof fn law_last_failure_is_repeated(msgs: Seq<MessageView>)
    ensures
        scrolled_failure(msgs) matches Some(i) ==> {
            &&& 0 <= i
            &&& i + 2 < msgs.len()
            &&& msgs[i].role == "tool"@
            &&& is_worth_repeating(msgs[i].text)
            &&& forall|j: int| i < j < msgs.len() ==> (#[trigger] msgs[j]).role != "tool"@
        },
        scrolled_failure(msgs) is None && msgs.len() > 0 && !is_stall_guard(msgs.last())
            ==> forall|i: int|
            0 <= i && i + 2 < msgs.len() && (#[trigger] msgs[i]).role == "tool"@
                && is_worth_repeating(msgs[i].text) ==> exists|j: int|
                i < j < msgs.len() && (#[trigger] msgs[j]).role == "tool"@,
{
    lemma_role_index(msgs, "tool"@, msgs.len());
}

// ---------------------------------------------------------------------------
// Refusals
// ---------------------------------------------------------------------------
/// A refusal says how many calls were made, how far they came, and which
/// refusal it is.
pub proof fn law_refusal_tells_the_numbers(metrics: F23ProgressMetrics, prior: nat)
    ensures
        contains(refusal_text(metrics, prior), dec(metrics.attempts as nat)),
        contains(refusal_text(metrics, prior), dec_int(metrics.score as int)),
        contains(refusal_text(metrics, prior), dec(prior + 1)),
{
    let t = refusal_text(metrics, prior);
    let a = "[tool error]\n[atlas-stall-guard] This conversation has made "@;
    let b = " tool calls with no progress (score="@;
    let c = "). Atlas has refused this tool call (refusal #"@;
    let d = "). "@ + refusal_directive(prior);
    let n = dec(metrics.attempts as nat);
    let s = dec_int(metrics.score as int);
    let p = dec(prior + 1);
    lemma_stands_between(a, n, b + s + c + p + d);
    assert(t =~= a + n + (b + s + c + p + d));
    lemma_stands_between(a + n + b, s, c + p + d);
    assert(t =~= a + n + b + s + (c + p + d));
    lemma_stands_between(a + n + b + s + c, p, d);
    assert(t =~= a + n + b + s + c + p + d);
}

proof fn lemma_past_tools(msgs: Seq<MessageView>, i: int)
    requires
        0 <= i <= msgs.len(),
    ensures
        i <= past_tools(msgs, i) <= msgs.len(),
        forall|j: int| i <= j < past_tools(msgs, i) ==> (#[trigger] msgs[j]).role == "tool"@,
        past_tools(msgs, i) < msgs.len() ==> msgs[past_tools(msgs, i)].role != "tool"@,
    decreases msgs.len() - i,
{
    if i < msgs.len() && msgs[i].role == "tool"@ {
        lemma_past_tools(msgs, i + 1);
    }
}

/// A refusal answers the first call of the last message of the assistant,
/// behind the results that are there; every message of the conversation stays,
/// in its order. It comes only where enough calls were made in vain.
pub proof fn law_refusal_answers_the_last_call(
    msgs: Seq<MessageView>,
    metrics: F23ProgressMetrics,
    refuse: u32,
)
    requires
        refused(msgs, metrics, refuse) is Some,
    ensures
        metrics.attempts >= refuse && metrics.score <= 0,
        ({
            let after = refused(msgs, metrics, refuse)->0;
            exists|k: int, i: int|
                #![trigger after[k], msgs[i]]
                0 <= i < k <= msgs.len() && after.remove(k) == msgs && msgs[i].role == "assistant"@
                    && (msgs[i].tool_calls matches Some(c) && c.len() > 0 && c[0].id is Some
                    && after[k].tool_call_id == c[0].id) && after[k].role == "tool"@
                    && after[k].text == refusal_text(metrics, guard_count(msgs)) && forall|j: int|
                    i < j < k ==> (#[trigger] msgs[j]).role == "tool"@
        }),
{
    lemma_role_index(msgs, "assistant"@, msgs.len());
    let (i, id) = refusal_anchor(msgs)->0;
    lemma_past_tools(msgs, i + 1);
    let k = past_tools(msgs, i + 1);
    let after = refused(msgs, metrics, refuse)->0;
    assert(after.remove(k) =~= msgs);
    assert(after[k].role == "tool"@);
    assert(msgs[i].role == "assistant"@);
}

/// Each refusal speaks more plainly than the one before.
pub proof fn law_refusals_grow_plainer(prior: nat)
    ensures
        refusal_directive(0).take(4) == "STOP"@,
        refusal_directive(1).take(6) == "SECOND"@,
        prior >= 2 ==> refusal_directive(prior).take(8) == "REPEATED"@,
        prior >= 2 ==> refusal_directive(prior) == refusal_directive(2),
{
    reveal_strlit("STOP");
    reveal_strlit("SECOND");
    reveal_strlit("REPEATED");
    reveal_strlit(
        "STOP retrying. Reply to the user with a plain-text explanation of what is blocking and what you need from them. Do NOT call any tool again — your next response must contain text only.",
    );
    reveal_strlit(
        "SECOND REFUSAL. The previous stall-guard was ignored — you continued issuing tool calls. This is not productive. Stop retrying immediately. Reply to the user in plain text with a description of what is blocking; do not call any tool, do not paste code, do not narrate next steps.",
    );
    reveal_strlit(
        "REPEATED REFUSALS. Atlas has injected multiple stall-guards and you continued generating tool calls. The agentic harness is not making progress. Acknowledge to the user that the task cannot be completed in this environment and explain why. Do not emit any further tool calls.",
    );
    assert(refusal_directive(0).take(4) =~= "STOP"@);
    assert(refusal_directive(1).take(6) =~= "SECOND"@);
    assert(refusal_directive(2).take(8) =~= "REPEATED"@);
}

} // verus!

//! Calls that are made again and again, commands that do not exist, and tool
//! results that are errors.
use vstd::prelude::*;
use crate::bytes::longer_than;
use crate::bytes::byte_len;
use crate::decimal::dec_u64;
use crate::decimal::dec;
use crate::failures::calls::{assistant_calls, call_keys, keys_of_calls, CallKey};
use crate::failures::notice::{count_times, put_notice};
use crate::failures::notice::{
    closes_once, is_tag, law_notice_is_replaced, notice, times_text, with_notice,
};
use crate::keyed::KeyedList;
use crate::keyed::{as_map, capped, counts, distinct, lemma_place, place, times};
use crate::messages::{set_text, IncomingMessage};
use crate::messages::{
    incoming_views, lemma_message_views_push, message_views, plain_message, MessageView,
};
use crate::order::{le_strings, sort_strings};
use crate::order::{in_order, le, lemma_le_total, lemma_le_trans, lemma_sorted_unique};
use crate::text::{
    begins, char_is_ascii_alnum, chars_of, has, rfind_chars, same, string_of_all, CharSet,
};
use crate::text::{contains, find, find_from, is_ascii_alnum, occurs_at, rfind, starts_with, views};
use crate::tool_args::primary_arg_for_tool;
use crate::trim::{
    after_last_of, char_views, join_strings, lines_of, part, trim_chars, trim_start_chars,
};
use crate::trim::{after_last, join, lines, trim, trim_start};

verus! {

/// From how many equal calls on the model is warned.
pub const F7_STALL_WARN_THRESHOLD: u32 = 4;

/// From how many equal calls on the model is told to stop.
pub const F7_STALL_REFUSE_THRESHOLD: u32 = 5;

/// From how many failures on a command counts as missing.
pub const F29_MIN_FAILURES_FOR_FACT: u32 = 2;

/// How often each call was made.
pub type F7StallBuckets = KeyedList<(String, String), u32>;

// ---------------------------------------------------------------------------
// Equal calls
// ---------------------------------------------------------------------------
/// Counts the assistant's calls by tool and main argument.
pub fn collect_f7_stall_buckets(messages: &[IncomingMessage]) -> (r: F7StallBuckets)
    ensures
        r.wf(),
        counts(r@, call_keys(message_views(messages@))),
{
    let ghost mv = message_views(messages@);
    let mut buckets: F7StallBuckets = KeyedList::new();
    let ghost mut seen: Seq<CallKey> = Seq::empty();
    let mut i: usize = 0;
    assert(mv.take(0) =~= Seq::<MessageView>::empty());
    while i < messages.len()
        invariant
            i <= messages@.len(),
            mv == message_views(messages@),
            buckets.wf(),
            seen == call_keys(mv.take(i as int)),
            counts(buckets@, seen),
        decreases messages@.len() - i,
    {
        let m = &messages[i];
        proof {
            assert(mv[i as int] == m@);
            assert(mv.take(i + 1).drop_last() =~= mv.take(i as int));
        }
        let mut counted = false;
        if same(m.role.as_str(), "assistant") {
            if let Some(calls) = &m.tool_calls {
                let ghost cv = incoming_views(calls@);
                let ghost before = seen;
                let mut j: usize = 0;
                assert(cv.take(0) =~= Seq::<crate::tools::CallView>::empty());
                assert(before + keys_of_calls(cv.take(0)) =~= before);
                while j < calls.len()
                    invariant
                        j <= calls@.len(),
                        cv == incoming_views(calls@),
                        buckets.wf(),
                        seen == before + keys_of_calls(cv.take(j as int)),
                        counts(buckets@, seen),
                    decreases calls@.len() - j,
                {
                    let call = &calls[j];
                    proof {
                        assert(cv[j as int] == call@);
                        assert(cv.take(j + 1).drop_last() =~= cv.take(j as int));
                    }
                    match primary_arg_for_tool(
                        call.function.name.as_str(),
                        call.function.arguments.as_str(),
                    ) {
                        Some(arg) => {
                            let key = (call.function.name.clone(), arg);
                            let ghost kv = key@;
                            let _n = buckets.bump(key, Ghost(seen));
                            proof {
                                assert(seen.push(kv) =~= before + keys_of_calls(
                                    cv.take(j + 1),
                                ));
                                seen = seen.push(kv);
                            }
                        },
                        None => {},
                    }
                    j += 1;
                }
                assert(cv.take(j as int) =~= cv);
                assert(assistant_calls(m@) == cv);
                counted = true;
            }
        }
        proof {
            if !counted {
                assert(assistant_calls(m@) =~= Seq::<crate::tools::CallView>::empty());
                assert(call_keys(mv.take(i as int)) + keys_of_calls(assistant_calls(m@))
                    =~= call_keys(mv.take(i as int)));
            }
        }
        i += 1;
    }
    assert(mv.take(i as int) =~= mv);
    buckets
}

/// The line of one bucket.
pub open spec fn bucket_line(key: CallKey, count: u32) -> Seq<char> {
    "- "@ + key.0 + "("@ + key.1 + ") × "@ + dec(count as nat)
}

/// Whether `order` lists what `m` holds, each key once.
pub open spec fn lists(order: Seq<(CallKey, u32)>, m: Map<CallKey, u32>) -> bool {
    distinct(order) && as_map(order) == m
}

/// The lines of the buckets of which the model is warned, in the order of the
/// list.
pub open spec fn warn_lines(order: Seq<(CallKey, u32)>) -> Seq<Seq<char>>
    decreases order.len(),
{
    if order.len() == 0 {
        Seq::empty()
    } else {
        let before = warn_lines(order.drop_last());
        let (key, count) = order.last();
        if count >= F7_STALL_WARN_THRESHOLD {
            before.push(bucket_line(key, count))
        } else {
            before
        }
    }
}

/// Whether `sorted` holds the lines of the buckets of which the model is
/// warned, sorted. `order` lists the buckets.
pub open spec fn is_stall_list(
    m: Map<CallKey, u32>,
    order: Seq<(CallKey, u32)>,
    sorted: Seq<Seq<char>>,
) -> bool {
    &&& lists(order, m)
    &&& in_order(sorted)
    &&& sorted.to_multiset() == warn_lines(order).to_multiset()
}

/// Whether some call was made so often that the model is told to stop.
pub open spec fn any_refused(m: Map<CallKey, u32>) -> bool {
    exists|k: CallKey| m.contains_key(k) && #[trigger] m[k] >= F7_STALL_REFUSE_THRESHOLD
}

/// The reminder with these lines.
pub open spec fn stall_text(sorted: Seq<Seq<char>>, refuse: bool) -> Seq<char> {
    let directive = if refuse {
        "STOP retrying. Respond to the user with a plain text message explaining what is blocking and what you need from them. Do NOT call any tool again — your next response must contain text only."@
    } else {
        "The retries are not making progress. Stop and explain to the user what is blocking and what you need from them. Do not call these tools again with the same arguments."@
    };
    "\n\n<system-reminder>\nYou have already issued the following tool calls multiple times in this conversation:\n"@
        + join(sorted, "\n"@) + "\n"@ + directive + "\n</system-reminder>"@
}

/// Builds the reminder of the calls that were made too often; `None` where
/// there is none. Its lines are sorted, so the order in which the buckets are
/// listed does not matter.
pub fn build_f7_stall_reminder(buckets: &F7StallBuckets) -> (r: Option<String>)
    requires
        buckets.wf(),
    ensures
        exists|order: Seq<(CallKey, u32)>, sorted: Seq<Seq<char>>| #[trigger]
            is_stall_list(buckets@, order, sorted) && match r {
                Some(t) => sorted.len() > 0 && t@ == stall_text(sorted, any_refused(buckets@)),
                None => sorted.len() == 0,
            },
{
    let ghost order = buckets.list();
    let mut warned: Vec<String> = Vec::new();
    let mut refuse = false;
    let mut i: usize = 0;
    assert(order.take(0) =~= Seq::<(CallKey, u32)>::empty());
    assert(views(warned@) =~= warn_lines(order.take(0)));
    let n = buckets.len();
    while i < n
        invariant
            i <= n,
            n == order.len(),
            order == buckets.list(),
            buckets.wf(),
            views(warned@) == warn_lines(order.take(i as int)),
            refuse ==> any_refused(buckets@),
            !refuse ==> forall|j: int|
                0 <= j < i ==> (#[trigger] order[j]).1 < F7_STALL_REFUSE_THRESHOLD,
        decreases n - i,
    {
        assert(order.take(i + 1).drop_last() =~= order.take(i as int));
        let key = buckets.key(i);
        let count = *buckets.value(i);
        let ghost before = warned@;
        proof {
            lemma_place(order, i as int);
        }
        if count >= F7_STALL_REFUSE_THRESHOLD {
            assert(buckets@[order[i as int].0] >= F7_STALL_REFUSE_THRESHOLD);
            refuse = true;
        }
        if count >= F7_STALL_WARN_THRESHOLD {
            let mut line = "- ".to_owned();
            line.append(key.0.as_str());
            line.append("(");
            line.append(key.1.as_str());
            line.append(") × ");
            line.append(dec_u64(count as u64).as_str());
            warned.push(line);
            assert(views(warned@) =~= views(before).push(line@));
        }
        i += 1;
    }
    assert(order.take(i as int) =~= order);
    proof {
        if !refuse {
            assert forall|k: CallKey| buckets@.contains_key(k) implies #[trigger] buckets@[k]
                < F7_STALL_REFUSE_THRESHOLD by {
                let p = place(order, k)->0;
                assert(order[p].0 == k);
            }
        }
    }
    let sorted = sort_strings(warned);
    let ghost sv = views(sorted@);
    proof {
        assert(is_stall_list(buckets@, order, sv));
        assert(sv.len() == sorted@.len());
    }
    if sorted.len() == 0 {
        return None;
    }
    let directive = if refuse {
        "STOP retrying. Respond to the user with a plain text message explaining what is blocking and what you need from them. Do NOT call any tool again — your next response must contain text only."
    } else {
        "The retries are not making progress. Stop and explain to the user what is blocking and what you need from them. Do not call these tools again with the same arguments."
    };
    let mut t =
        "\n\n<system-reminder>\nYou have already issued the following tool calls multiple times in this conversation:\n".to_owned();
    t.append(join_strings(&sorted, "\n").as_str());
    t.append("\n");
    t.append(directive);
    t.append("\n</system-reminder>");
    assert(t@ == stall_text(sv, any_refused(buckets@)));
    Some(t)
}

proof fn lemma_warn_lines_without(order: Seq<(CallKey, u32)>, p: int)
    requires
        0 <= p < order.len(),
    ensures
        warn_lines(order).to_multiset() == if order[p].1 >= F7_STALL_WARN_THRESHOLD {
            warn_lines(order.remove(p)).to_multiset().insert(bucket_line(order[p].0, order[p].1))
        } else {
            warn_lines(order.remove(p)).to_multiset()
        },
    decreases order.len(),
{
    let head = order.drop_last();
    let last = order.last();
    warn_lines(head).to_multiset_ensures();
    if p == order.len() - 1 {
        assert(order.remove(p) =~= head);
    } else {
        lemma_warn_lines_without(head, p);
        assert(order.remove(p).drop_last() =~= head.remove(p));
        assert(order.remove(p).last() == last);
        warn_lines(head.remove(p)).to_multiset_ensures();
        if last.1 >= F7_STALL_WARN_THRESHOLD && order[p].1 >= F7_STALL_WARN_THRESHOLD {
            let a = bucket_line(last.0, last.1);
            let b = bucket_line(order[p].0, order[p].1);
            let rest = warn_lines(head.remove(p)).to_multiset();
            assert(rest.insert(b).insert(a) =~= rest.insert(a).insert(b));
        }
    }
}

proof fn lemma_warn_lines_alike(a: Seq<(CallKey, u32)>, b: Seq<(CallKey, u32)>)
    requires
        distinct(a),
        distinct(b),
        forall|i: int| 0 <= i < a.len() ==> b.contains(#[trigger] a[i]),
        forall|i: int| 0 <= i < b.len() ==> a.contains(#[trigger] b[i]),
    ensures
        warn_lines(a).to_multiset() == warn_lines(b).to_multiset(),
    decreases a.len(),
{
    if a.len() == 0 {
        if b.len() > 0 {
            assert(a.contains(b[0]));
        }
        assert(a =~= b);
    } else {
        let q = a.len() - 1;
        assert(b.contains(a[q]));
        let p = choose|p: int| 0 <= p < b.len() && b[p] == a[q];
        let a2 = a.remove(q);
        let b2 = b.remove(p);
        assert forall|i: int| 0 <= i < a2.len() implies b2.contains(#[trigger] a2[i]) by {
            assert(b.contains(a[i]));
            let j = choose|j: int| 0 <= j < b.len() && b[j] == a[i];
            assert(j != p);
            assert(b2[if j < p {
                j
            } else {
                j - 1
            }] == a2[i]);
        }
        assert forall|i: int| 0 <= i < b2.len() implies a2.contains(#[trigger] b2[i]) by {
            let k = if i < p {
                i
            } else {
                i + 1
            };
            assert(a.contains(b[k]));
            let j = choose|j: int| 0 <= j < a.len() && a[j] == b[k];
            assert(j != q);
            assert(a2[j] == b2[i]);
        }
        lemma_warn_lines_alike(a2, b2);
        lemma_warn_lines_without(a, q);
        lemma_warn_lines_without(b, p);
    }
}

/// The lines of the reminder depend on the buckets alone, not on the order in
/// which they are listed.
pub proof fn law_stall_list_is_one(
    m: Map<CallKey, u32>,
    order: Seq<(CallKey, u32)>,
    sorted: Seq<Seq<char>>,
    other_order: Seq<(CallKey, u32)>,
    other_sorted: Seq<Seq<char>>,
)
    requires
        is_stall_list(m, order, sorted),
        is_stall_list(m, other_order, other_sorted),
    ensures
        sorted == other_sorted,
{
    assert forall|i: int| 0 <= i < order.len() implies other_order.contains(
        #[trigger] order[i],
    ) by {
        lemma_place(order, i);
        let p = place(other_order, order[i].0)->0;
        assert(other_order[p].0 == order[i].0);
        assert(other_order[p] == order[i]);
    }
    assert forall|i: int| 0 <= i < other_order.len() implies order.contains(
        #[trigger] other_order[i],
    ) by {
        lemma_place(other_order, i);
        let p = place(order, other_order[i].0)->0;
        assert(order[p].0 == other_order[i].0);
        assert(order[p] == other_order[i]);
    }
    lemma_warn_lines_alike(order, other_order);
    lemma_sorted_unique(sorted, other_sorted);
}

// ---------------------------------------------------------------------------
// Reminders
// ---------------------------------------------------------------------------
/// The last of the first `n` messages that is the user's or a tool's.
pub open spec fn last_user_or_tool(msgs: Seq<MessageView>, n: nat) -> Option<int>
    decreases n,
{
    if n == 0 || n > msgs.len() {
        None
    } else if msgs[n - 1].role == "user"@ || msgs[n - 1].role == "tool"@ {
        Some(n - 1)
    } else {
        last_user_or_tool(msgs, (n - 1) as nat)
    }
}

/// The messages with the reminder at the end of the last user or tool
/// message, or as a system message of its own.
pub open spec fn with_reminder(msgs: Seq<MessageView>, reminder: Seq<char>) -> Seq<MessageView> {
    match last_user_or_tool(msgs, msgs.len()) {
        Some(i) => msgs.update(i, (MessageView { text: msgs[i].text + reminder, ..msgs[i] })),
        None => msgs.push(plain_message("system"@, trim_start(reminder, CharSet::White))),
    }
}

/// Appends a reminder to the last user or tool message.
pub fn append_f7_reminder_to_last_user(messages: &mut Vec<IncomingMessage>, reminder: &str)
    ensures
        message_views(final(messages)@) == with_reminder(
            message_views(old(messages)@),
            reminder@,
        ),
{
    broadcast use lemma_message_views_push;

    let ghost mv = message_views(messages@);
    let mut i: usize = messages.len();
    while i > 0
        invariant
            i <= messages@.len(),
            messages == old(messages),
            mv == message_views(messages@),
            last_user_or_tool(mv, mv.len()) == last_user_or_tool(mv, i as nat),
        decreases i,
    {
        assert(mv[i - 1] == messages@[i - 1]@);
        if same(messages[i - 1].role.as_str(), "user") || same(
            messages[i - 1].role.as_str(),
            "tool",
        ) {
            let mut text = messages[i - 1].content.text.clone();
            text.append(reminder);
            set_text(messages, i - 1, text);
            return;
        }
        i -= 1;
    }
    let chars = chars_of(reminder);
    let trimmed = trim_start_chars(&chars, CharSet::White);
    messages.push(IncomingMessage::synthetic_system(string_of_all(&trimmed)));
}

/// The notice that carries a reminder.
pub open spec fn reminder_notice(reminder: Seq<char>) -> Seq<char> {
    notice(
        "<atlas_runtime_notice>"@,
        "\n"@ + trim(reminder, CharSet::SpaceFeed) + "\n"@,
        "</atlas_runtime_notice>"@,
    )
}

/// Puts a reminder at the head of the system message. A notice that is there
/// is replaced.
pub fn prepend_reminder_to_system(messages: &mut Vec<IncomingMessage>, reminder: &str)
    ensures
        message_views(final(messages)@) == with_notice(
            message_views(old(messages)@),
            reminder_notice(reminder@),
            "<atlas_runtime_notice>"@,
            "</atlas_runtime_notice>"@,
        ),
{
    let chars = chars_of(reminder);
    let trimmed = trim_chars(&chars, CharSet::SpaceFeed);
    let mut block = "<atlas_runtime_notice>".to_owned();
    let mut body = "\n".to_owned();
    body.append(string_of_all(&trimmed).as_str());
    body.append("\n");
    block.append(body.as_str());
    block.append("</atlas_runtime_notice>");
    block.append("\n\n");
    put_notice(
        messages,
        block.as_str(),
        "<atlas_runtime_notice>",
        "</atlas_runtime_notice>",
    );
}

/// A second reminder takes the place of the first, as long as reminders do not
/// hold the closing tag.
pub proof fn law_reminder_is_replaced(
    msgs: Seq<MessageView>,
    first: Seq<char>,
    second: Seq<char>,
)
    requires
        closes_once(
            "<atlas_runtime_notice>"@,
            "\n"@ + trim(first, CharSet::SpaceFeed) + "\n"@,
            "</atlas_runtime_notice>"@,
        ),
        msgs.len() > 0 && msgs[0].role == "system"@ ==> (find(
            msgs[0].text,
            "<atlas_runtime_notice>"@,
        ) is Some ==> find_from(
            msgs[0].text,
            "</atlas_runtime_notice>"@,
            find(msgs[0].text, "<atlas_runtime_notice>"@)->0,
        ) is Some),
    ensures
        with_notice(
            with_notice(
                msgs,
                reminder_notice(first),
                "<atlas_runtime_notice>"@,
                "</atlas_runtime_notice>"@,
            ),
            reminder_notice(second),
            "<atlas_runtime_notice>"@,
            "</atlas_runtime_notice>"@,
        ) == with_notice(
            msgs,
            reminder_notice(second),
            "<atlas_runtime_notice>"@,
            "</atlas_runtime_notice>"@,
        ),
{
    reveal_strlit("<atlas_runtime_notice>");
    reveal_strlit("</atlas_runtime_notice>");
    assert(is_tag("<atlas_runtime_notice>"@)) by {
        reveal(is_tag);
    }
    assert(is_tag("</atlas_runtime_notice>"@)) by {
        reveal(is_tag);
    }
    law_notice_is_replaced(
        msgs,
        "<atlas_runtime_notice>"@,
        "</atlas_runtime_notice>"@,
        "\n"@ + trim(first, CharSet::SpaceFeed) + "\n"@,
        "\n"@ + trim(second, CharSet::SpaceFeed) + "\n"@,
    );
}

// ---------------------------------------------------------------------------
// Commands that do not exist
// ---------------------------------------------------------------------------
/// A command that was seen to be missing, and how often.
#[derive(Debug, Clone, PartialEq, Eq, Hash)]
pub struct F29EnvironmentFact {
    /// The name of the command.
    pub binary: String,
    /// How many lines reported it missing.
    pub observed_count: u32,
}

impl View for F29EnvironmentFact {
    type V = (Seq<char>, u32);

    open spec fn view(&self) -> (Seq<char>, u32) {
        (self.binary@, self.observed_count)
    }
}

/// The views of a sequence of facts.
pub open spec fn fact_views(s: Seq<F29EnvironmentFact>) -> Seq<(Seq<char>, u32)> {
    s.map_values(|f: F29EnvironmentFact| f@)
}

/// Whether `c` may stand in the name of a command.
pub open spec fn is_name_char(c: char) -> bool {
    is_ascii_alnum(c) || c == '_' || c == '-' || c == '.'
}

/// Whether `s` can be the name of a command: not empty, at most 40 bytes, made
/// of letters, digits, `_`, `-` and `.`.
pub open spec fn is_binary_name(s: Seq<char>) -> bool {
    &&& s.len() > 0
    &&& byte_len(s) <= 40
    &&& forall|i: int| 0 <= i < s.len() ==> is_name_char(#[trigger] s[i])
}

/// The command that an error line says was not found.
pub open spec fn missing_binary(line: Seq<char>) -> Option<Seq<char>> {
    let t = trim(line, CharSet::White);
    let at = match rfind(t, ": command not found"@) {
        Some(i) => Some(i),
        None => rfind(t, ": not found"@),
    };
    match at {
        Some(i) => {
            let name = trim(after_last(t.take(i), CharSet::Word), CharSet::White);
            if is_binary_name(name) {
                Some(name)
            } else {
                None
            }
        },
        None => None,
    }
}

/// Decides [`is_binary_name`].
fn names_binary(v: &Vec<char>) -> (r: bool)
    ensures
        r == is_binary_name(v@),
{
    if v.len() == 0 || longer_than(v, 40) {
        return false;
    }
    let mut i: usize = 0;
    while i < v.len()
        invariant
            i <= v@.len(),
            forall|j: int| 0 <= j < i ==> is_name_char(#[trigger] v@[j]),
        decreases v@.len() - i,
    {
        let c = v[i];
        if !(char_is_ascii_alnum(c) || c == '_' || c == '-' || c == '.') {
            assert(!is_name_char(v@[i as int]));
            return false;
        }
        i += 1;
    }
    true
}

/// Takes the name of the command out of a "command not found" line.
///
/// `X: command not found`, `bash: X: command not found`,
/// `/bin/bash: line 1: X: command not found`, `X: not found` and
/// `/bin/sh: 1: X: not found` all give `X`.
pub fn f29_extract_binary_from_error_line(line: &str) -> (r: Option<String>)
    ensures
        crate::tools::opt_view(r) == missing_binary(line@),
{
    let chars = chars_of(line);
    binary_in(&chars)
}

/// [`f29_extract_binary_from_error_line`] on characters.
fn binary_in(line: &Vec<char>) -> (r: Option<String>)
    ensures
        crate::tools::opt_view(r) == missing_binary(line@),
{
    let t = trim_chars(line, CharSet::White);
    let long = chars_of(": command not found");
    let short = chars_of(": not found");
    let at = match rfind_chars(&t, &long) {
        Some(i) => Some(i),
        None => rfind_chars(&t, &short),
    };
    match at {
        Some(i) => {
            let head = part(&t, 0, i);
            assert(head@ =~= t@.take(i as int));
            let name = trim_chars(&after_last_of(&head, CharSet::Word), CharSet::White);
            if names_binary(&name) {
                Some(string_of_all(&name))
            } else {
                None
            }
        },
        None => None,
    }
}

/// The commands that the lines report missing, one entry for each report.
pub open spec fn missing_in_lines(ls: Seq<Seq<char>>) -> Seq<Seq<char>>
    decreases ls.len(),
{
    if ls.len() == 0 {
        Seq::empty()
    } else {
        let before = missing_in_lines(ls.drop_last());
        match missing_binary(ls.last()) {
            Some(b) => before.push(b),
            None => before,
        }
    }
}

/// The commands that the tool results report missing, one entry for each
/// report.
pub open spec fn missing_commands(msgs: Seq<MessageView>) -> Seq<Seq<char>>
    decreases msgs.len(),
{
    if msgs.len() == 0 {
        Seq::empty()
    } else {
        let before = missing_commands(msgs.drop_last());
        if msgs.last().role == "tool"@ {
            before + missing_in_lines(lines(msgs.last().text))
        } else {
            before
        }
    }
}

/// Strictly ascending by name.
pub open spec fn by_name(s: Seq<(Seq<char>, u32)>) -> bool {
    forall|i: int, j: int|
        0 <= i < j < s.len() ==> le((#[trigger] s[i]).0, (#[trigger] s[j]).0) && s[i].0 != s[j].0
}

/// Whether `facts` are the commands reported missing often enough, with the
/// number of reports, by name.
pub open spec fn are_facts(facts: Seq<(Seq<char>, u32)>, seen: Seq<Seq<char>>) -> bool {
    &&& by_name(facts)
    &&& forall|e: (Seq<char>, u32)| #[trigger]
        facts.contains(e) <==> (e.1 == capped(times(seen, e.0)) && e.1
            >= F29_MIN_FAILURES_FOR_FACT)
}

/// Puts a fact where it belongs in a list ordered by name.
fn insert_fact(facts: &mut Vec<F29EnvironmentFact>, f: F29EnvironmentFact)
    requires
        by_name(fact_views(old(facts)@)),
        forall|i: int|
            0 <= i < old(facts)@.len() ==> (#[trigger] fact_views(old(facts)@)[i]).0 != f@.0,
    ensures
        by_name(fact_views(final(facts)@)),
        forall|e: (Seq<char>, u32)| #[trigger]
            fact_views(final(facts)@).contains(e) <==> (fact_views(old(facts)@).contains(e) || e
                == f@),
{
    let ghost before = fact_views(facts@);
    let mut p: usize = 0;
    while p < facts.len() && !le_strings(f.binary.as_str(), facts[p].binary.as_str())
        invariant
            p <= facts@.len(),
            before == fact_views(facts@),
            forall|i: int| 0 <= i < p ==> !le(f@.0, (#[trigger] before[i]).0),
        decreases facts@.len() - p,
    {
        assert(before[p as int].0 == facts@[p as int].binary@);
        p += 1;
    }
    let ghost fv = f@;
    facts.insert(p, f);
    proof {
        let after = fact_views(facts@);
        assert(after =~= before.insert(p as int, fv));
        if p < before.len() {
            assert(le(fv.0, before[p as int].0));
        }
        assert forall|i: int, j: int| 0 <= i < j < after.len() implies le(
            (#[trigger] after[i]).0,
            (#[trigger] after[j]).0,
        ) && after[i].0 != after[j].0 by {
            if j < p {
                assert(after[i] == before[i] && after[j] == before[j]);
            } else if j == p {
                assert(after[i] == before[i]);
                lemma_le_total(before[i].0, fv.0, 0);
            } else if i > p {
                assert(after[i] == before[i - 1] && after[j] == before[j - 1]);
            } else if i == p {
                assert(after[j] == before[j - 1]);
                if j - 1 > p {
                    assert(le(before[p as int].0, before[j - 1].0));
                    lemma_le_trans(fv.0, before[p as int].0, before[j - 1].0, 0);
                }
            } else {
                assert(after[i] == before[i] && after[j] == before[j - 1]);
            }
        }
        assert forall|e: (Seq<char>, u32)| #[trigger] after.contains(e) <==> (before.contains(e)
            || e == fv) by {
            if after.contains(e) {
                let i = choose|i: int| 0 <= i < after.len() && after[i] == e;
                if i < p {
                    assert(before[i] == e);
                } else if i > p {
                    assert(before[i - 1] == e);
                }
            }
            if before.contains(e) {
                let i = choose|i: int| 0 <= i < before.len() && before[i] == e;
                if i < p {
                    assert(after[i] == e);
                } else {
                    assert(after[i + 1] == e);
                }
            }
            if e == fv {
                assert(after[p as int] == e);
            }
        }
    }
}

proof fn lemma_take_contains<A>(s: Seq<A>, k: int)
    requires
        0 <= k < s.len(),
    ensures
        forall|e: A| #[trigger] s.take(k + 1).contains(e) <==> (s.take(k).contains(e) || e == s[k]),
{
    let t0 = s.take(k);
    let t1 = s.take(k + 1);
    assert forall|e: A| #[trigger] t1.contains(e) <==> (t0.contains(e) || e == s[k]) by {
        if t0.contains(e) {
            let q = choose|q: int| 0 <= q < t0.len() && t0[q] == e;
            assert(t1[q] == e);
        }
        if e == s[k] {
            assert(t1[k] == e);
        }
        if t1.contains(e) {
            let q = choose|q: int| 0 <= q < t1.len() && t1[q] == e;
            if q < k {
                assert(t0[q] == e);
            }
        }
    }
}

/// Collects the commands that were reported missing at least twice.
pub fn f29_extract_environment_facts(messages: &[IncomingMessage]) -> (r: Vec<
    F29EnvironmentFact,
>)
    ensures
        are_facts(fact_views(r@), missing_commands(message_views(messages@))),
{
    let ghost mv = message_views(messages@);
    let mut found: KeyedList<String, u32> = KeyedList::new();
    let ghost mut seen: Seq<Seq<char>> = Seq::empty();
    let mut i: usize = 0;
    assert(mv.take(0) =~= Seq::<MessageView>::empty());
    while i < messages.len()
        invariant
            i <= messages@.len(),
            mv == message_views(messages@),
            found.wf(),
            seen == missing_commands(mv.take(i as int)),
            counts(found@, seen),
        decreases messages@.len() - i,
    {
        let m = &messages[i];
        proof {
            assert(mv[i as int] == m@);
            assert(mv.take(i + 1).drop_last() =~= mv.take(i as int));
        }
        if same(m.role.as_str(), "tool") {
            let ls = lines_of(&chars_of(m.content.text.as_str()));
            let ghost lv = char_views(ls@);
            let ghost before = seen;
            let mut j: usize = 0;
            assert(lv.take(0) =~= Seq::<Seq<char>>::empty());
            assert(before + missing_in_lines(lv.take(0)) =~= before);
            while j < ls.len()
                invariant
                    j <= ls@.len(),
                    lv == char_views(ls@),
                    found.wf(),
                    seen == before + missing_in_lines(lv.take(j as int)),
                    counts(found@, seen),
                decreases ls@.len() - j,
            {
                proof {
                    assert(lv[j as int] == ls@[j as int]@);
                    assert(lv.take(j + 1).drop_last() =~= lv.take(j as int));
                }
                match binary_in(&ls[j]) {
                    Some(bin) => {
                        let ghost bv = bin@;
                        let _n = found.bump(bin, Ghost(seen));
                        proof {
                            assert(seen.push(bv) =~= before + missing_in_lines(lv.take(j + 1)));
                            seen = seen.push(bv);
                        }
                    },
                    None => {},
                }
                j += 1;
            }
            assert(lv.take(j as int) =~= lv);
        }
        i += 1;
    }
    assert(mv.take(i as int) =~= mv);
    let ghost order = found.list();
    let mut facts: Vec<F29EnvironmentFact> = Vec::new();
    let n = found.len();
    let mut k: usize = 0;
    assert(fact_views(facts@) =~= Seq::<(Seq<char>, u32)>::empty());
    while k < n
        invariant
            k <= n,
            n == order.len(),
            order == found.list(),
            found.wf(),
            by_name(fact_views(facts@)),
            forall|e: (Seq<char>, u32)| #[trigger]
                fact_views(facts@).contains(e) <==> (order.take(k as int).contains(e) && e.1
                    >= F29_MIN_FAILURES_FOR_FACT),
        decreases n - k,
    {
        let count = *found.value(k);
        let ghost e0 = order[k as int];
        let ghost before = fact_views(facts@);
        proof {
            lemma_take_contains(order, k as int);
        }
        if count >= F29_MIN_FAILURES_FOR_FACT {
            proof {
                assert forall|q: int| 0 <= q < facts@.len() implies (#[trigger] before[q]).0
                    != e0.0 by {
                    assert(before.contains(before[q]));
                    let t0 = order.take(k as int);
                    let z = choose|z: int| 0 <= z < t0.len() && t0[z] == before[q];
                    assert(order[z] == before[q]);
                }
            }
            let fact = F29EnvironmentFact {
                binary: found.key(k).clone(),
                observed_count: count,
            };
            assert(fact@ == e0);
            insert_fact(&mut facts, fact);
        }
        k += 1;
    }
    proof {
        assert(order.take(k as int) =~= order);
        assert forall|e: (Seq<char>, u32)| #[trigger] fact_views(facts@).contains(e) <==> (e.1
            == capped(times(seen, e.0)) && e.1 >= F29_MIN_FAILURES_FOR_FACT) by {
            if order.contains(e) {
                let q = choose|q: int| 0 <= q < order.len() && order[q] == e;
                lemma_place(order, q);
                assert(found@.contains_key(e.0));
                assert(found@[e.0] == e.1);
            }
            if times(seen, e.0) > 0 {
                assert(found@.contains_key(e.0));
                let q = crate::keyed::place(order, e.0)->0;
                assert(order[q].0 == e.0);
                assert(found@[e.0] == capped(times(seen, e.0)));
                if e.1 == capped(times(seen, e.0)) {
                    assert(order[q] == e);
                    assert(order.contains(e));
                }
            }
        }
    }
    facts
}

/// The line of one fact.
pub open spec fn fact_line(f: (Seq<char>, u32)) -> Seq<char> {
    "- `"@ + f.0 + "` (returned 'command not found' "@ + times_text(f.1) + ")"@
}

/// What stands between the tags of the facts' notice.
pub open spec fn facts_body(facts: Seq<(Seq<char>, u32)>) -> Seq<char> {
    "\nThe following commands are NOT available in this environment. Do NOT attempt to use them — the failure is permanent and retrying with cosmetic variations (mkdir prefix, cd path, flag order) will not change the outcome:\n"@
        + join(facts.map_values(|f: (Seq<char>, u32)| fact_line(f)), "\n"@) + "\n"@
}

/// The messages with the facts at the head of the system message.
pub open spec fn with_facts(
    msgs: Seq<MessageView>,
    facts: Seq<(Seq<char>, u32)>,
) -> Seq<MessageView> {
    if facts.len() == 0 {
        msgs
    } else {
        with_notice(
            msgs,
            notice("<environment_facts>"@, facts_body(facts), "</environment_facts>"@),
            "<environment_facts>"@,
            "</environment_facts>"@,
        )
    }
}

/// Puts the facts at the head of the system message. A block of facts that is
/// there is replaced.
pub fn f29_inject_environment_facts(
    messages: &mut Vec<IncomingMessage>,
    facts: &[F29EnvironmentFact],
)
    ensures
        message_views(final(messages)@) == with_facts(
            message_views(old(messages)@),
            fact_views(facts@),
        ),
{
    if facts.len() == 0 {
        return;
    }
    let ghost fv = fact_views(facts@);
    let ghost lv = fv.map_values(|f: (Seq<char>, u32)| fact_line(f));
    let mut ls: Vec<String> = Vec::new();
    let mut i: usize = 0;
    while i < facts.len()
        invariant
            i <= facts@.len(),
            fv == fact_views(facts@),
            lv == fv.map_values(|f: (Seq<char>, u32)| fact_line(f)),
            views(ls@) == lv.take(i as int),
        decreases facts@.len() - i,
    {
        let mut l = "- `".to_owned();
        l.append(facts[i].binary.as_str());
        l.append("` (returned 'command not found' ");
        l.append(count_times(facts[i].observed_count).as_str());
        l.append(")");
        let ghost line = l@;
        let ghost before = ls@;
        assert(line == fact_line(fv[i as int]));
        ls.push(l);
        assert(views(ls@) =~= views(before).push(line));
        i += 1;
        assert(views(ls@) =~= lv.take(i as int));
    }
    assert(lv.take(i as int) =~= lv);
    let mut body = "\nThe following commands are NOT available in this environment. Do NOT attempt to use them — the failure is permanent and retrying with cosmetic variations (mkdir prefix, cd path, flag order) will not change the outcome:\n".to_owned();
    body.append(join_strings(&ls, "\n").as_str());
    body.append("\n");
    let mut block = "<environment_facts>".to_owned();
    block.append(body.as_str());
    block.append("</environment_facts>");
    block.append("\n\n");
    put_notice(messages, block.as_str(), "<environment_facts>", "</environment_facts>");
}

/// Whether no `<` stands in `s`.
spec fn no_angle(s: Seq<char>) -> bool {
    forall|i: int| 0 <= i < s.len() ==> #[trigger] s[i] != '<'
}

proof fn lemma_no_angle_join(parts: Seq<Seq<char>>, sep: Seq<char>)
    requires
        no_angle(sep),
        forall|i: int| 0 <= i < parts.len() ==> no_angle(#[trigger] parts[i]),
    ensures
        no_angle(join(parts, sep)),
    decreases parts.len(),
{
    if parts.len() > 1 {
        lemma_no_angle_join(parts.drop_last(), sep);
        assert(no_angle(parts.last()));
    } else if parts.len() == 1 {
        assert(no_angle(parts[0]));
    }
}

proof fn lemma_no_angle_dec(n: nat)
    ensures
        no_angle(dec(n)),
    decreases n,
{
    if n >= 10 {
        lemma_no_angle_dec(n / 10);
    }
}

proof fn lemma_no_angle_line(f: (Seq<char>, u32))
    requires
        is_binary_name(f.0),
    ensures
        no_angle(fact_line(f)),
{
    reveal_strlit("- `");
    reveal_strlit("` (returned 'command not found' ");
    reveal_strlit(")");
    reveal_strlit(" time");
    reveal_strlit("");
    reveal_strlit("s");
    lemma_no_angle_dec(f.1 as nat);
    assert(no_angle(f.0));
    assert(no_angle(times_text(f.1)));
    assert(no_angle("- `"@ + f.0));
    assert(no_angle("` (returned 'command not found' "@));
    assert(no_angle("- `"@ + f.0 + "` (returned 'command not found' "@));
}

proof fn lemma_no_angle_intro()
    ensures
        no_angle(
            "\nThe following commands are NOT available in this environment. Do NOT attempt to use them — the failure is permanent and retrying with cosmetic variations (mkdir prefix, cd path, flag order) will not change the outcome:\n"@,
        ),
{
    reveal_strlit(
        "\nThe following commands are NOT available in this environment. Do NOT attempt to use them — the failure is permanent and retrying with cosmetic variations (mkdir prefix, cd path, flag order) will not change the outcome:\n",
    );
}

/// Facts that are put in later take the place of those put in before.
pub proof fn law_facts_are_replaced(
    msgs: Seq<MessageView>,
    first: Seq<(Seq<char>, u32)>,
    second: Seq<(Seq<char>, u32)>,
)
    requires
        second.len() > 0,
        forall|i: int| 0 <= i < first.len() ==> is_binary_name((#[trigger] first[i]).0),
        msgs.len() > 0 && msgs[0].role == "system"@ ==> (find(
            msgs[0].text,
            "<environment_facts>"@,
        ) is Some ==> find_from(
            msgs[0].text,
            "</environment_facts>"@,
            find(msgs[0].text, "<environment_facts>"@)->0,
        ) is Some),
    ensures
        with_facts(with_facts(msgs, first), second) == with_facts(msgs, second),
{
    if first.len() > 0 {
        let open = "<environment_facts>"@;
        let close = "</environment_facts>"@;
        let body = facts_body(first);
        reveal_strlit("<environment_facts>");
        reveal_strlit("</environment_facts>");
        assert(is_tag(open)) by {
            reveal(is_tag);
        }
        assert(is_tag(close)) by {
            reveal(is_tag);
        }
        assert(no_angle(body)) by {
            lemma_no_angle_intro();
            reveal_strlit("\n");
            let ls = first.map_values(|f: (Seq<char>, u32)| fact_line(f));
            assert forall|i: int| 0 <= i < ls.len() implies no_angle(#[trigger] ls[i]) by {
                lemma_no_angle_line(first[i]);
            }
            lemma_no_angle_join(ls, "\n"@);
        }
        let whole = open + body + close;
        let at = (open.len() + body.len()) as int;
        assert(whole.subrange(at, at + close.len()) =~= close);
        assert forall|j: int| 0 <= j < at implies !occurs_at(whole, close, j) by {
            if occurs_at(whole, close, j) {
                assert(whole.subrange(j, j + close.len())[0] == '<');
                assert(whole[j] == '<');
                if j == 0 {
                    assert(whole.subrange(j, j + close.len())[1] == '/');
                    assert(whole[1] == 'e');
                } else if j < open.len() {
                    assert(open[j] == '<');
                } else {
                    assert(body[j - open.len()] == '<');
                }
            }
        }
        crate::text::lemma_find_from_is(whole, close, 0, at);
        law_notice_is_replaced(msgs, open, close, body, facts_body(second));
    }
}

/// A fact that was extracted names a command by letters, digits, `_`, `-` and
/// `.` alone.
pub proof fn law_facts_name_commands(
    msgs: Seq<MessageView>,
    facts: Seq<(Seq<char>, u32)>,
    i: int,
)
    requires
        are_facts(facts, missing_commands(msgs)),
        0 <= i < facts.len(),
    ensures
        is_binary_name(facts[i].0),
{
    assert(facts.contains(facts[i]));
    lemma_missing_are_names(msgs, facts[i].0);
}

proof fn lemma_missing_in_lines_are_names(ls: Seq<Seq<char>>, b: Seq<char>)
    ensures
        times(missing_in_lines(ls), b) > 0 ==> is_binary_name(b),
    decreases ls.len(),
{
    if ls.len() > 0 {
        lemma_missing_in_lines_are_names(ls.drop_last(), b);
        let before = missing_in_lines(ls.drop_last());
        match missing_binary(ls.last()) {
            Some(x) => {
                assert(before.push(x).drop_last() =~= before);
            },
            None => {},
        }
    }
}

proof fn lemma_times_add<A>(a: Seq<A>, b: Seq<A>, k: A)
    ensures
        times(a + b, k) == times(a, k) + times(b, k),
    decreases b.len(),
{
    if b.len() > 0 {
        assert((a + b).drop_last() =~= a + b.drop_last());
        lemma_times_add(a, b.drop_last(), k);
    } else {
        assert(a + b =~= a);
    }
}

proof fn lemma_missing_are_names(msgs: Seq<MessageView>, b: Seq<char>)
    ensures
        times(missing_commands(msgs), b) > 0 ==> is_binary_name(b),
    decreases msgs.len(),
{
    if msgs.len() > 0 {
        lemma_missing_are_names(msgs.drop_last(), b);
        if msgs.last().role == "tool"@ {
            let more = missing_in_lines(lines(msgs.last().text));
            lemma_times_add(missing_commands(msgs.drop_last()), more, b);
            lemma_missing_in_lines_are_names(lines(msgs.last().text), b);
        }
    }
}

// ---------------------------------------------------------------------------
// Results that are errors
// ---------------------------------------------------------------------------
/// Whether a tool result reads like an error: by how it begins, or by one of
/// the known signatures.
pub open spec fn looks_like_error(t: Seq<char>) -> bool {
    ||| starts_with(t, "[tool error]"@)
    ||| starts_with(t, "Error:"@)
    ||| contains(t, "Exit code 127"@)
    ||| contains(t, "command not found"@)
    ||| contains(t, ": not found"@)
    ||| contains(t, "Permission denied"@)
    ||| contains(t, "[atlas-stall-guard]"@)
    ||| contains(t, "[atlas-permanent-failure]"@)
    ||| contains(t, "TypeError"@)
    ||| contains(t, "ERR_INVALID_ARG_VALUE"@)
    ||| contains(t, "cannot access"@)
    ||| contains(t, "No such file or directory"@)
    ||| contains(t, "already exists"@)
    ||| contains(t, "cannot be run on existing"@)
    ||| contains(t, "before overwriting it"@)
    ||| contains(t, "ENOENT"@)
    ||| contains(t, "EISDIR"@)
    ||| contains(t, "EACCES"@)
}

/// Decides [`looks_like_error`].
pub fn f28_text_looks_like_error(t: &str) -> (r: bool)
    ensures
        r == looks_like_error(t@),
{
    begins(t, "[tool error]") || begins(t, "Error:") || has(t, "Exit code 127") || has(
        t,
        "command not found",
    ) || has(t, ": not found") || has(t, "Permission denied") || has(t, "[atlas-stall-guard]")
        || has(t, "[atlas-permanent-failure]") || has(t, "TypeError") || has(
        t,
        "ERR_INVALID_ARG_VALUE",
    ) || has(t, "cannot access") || has(t, "No such file or directory") || has(
        t,
        "already exists",
    ) || has(t, "cannot be run on existing") || has(t, "before overwriting it") || has(
        t,
        "ENOENT",
    ) || has(t, "EISDIR") || has(t, "EACCES")
}

/// The last of the first `n` messages with this role.
pub open spec fn last_with_role(msgs: Seq<MessageView>, role: Seq<char>, n: nat) -> Option<int>
    decreases n,
{
    if n == 0 || n > msgs.len() {
        None
    } else if msgs[n - 1].role == role {
        Some(n - 1)
    } else {
        last_with_role(msgs, role, (n - 1) as nat)
    }
}

/// Finds the last message with this role.
pub(crate) fn find_last(messages: &[IncomingMessage], role: &str) -> (r: Option<usize>)
    ensures
        match r {
            Some(i) => last_with_role(message_views(messages@), role@, messages@.len())
                == Some(i as int) && i < messages@.len() && messages@[i as int].role@ == role@,
            None => last_with_role(message_views(messages@), role@, messages@.len()) is None,
        },
{
    let ghost mv = message_views(messages@);
    let mut i: usize = messages.len();
    while i > 0
        invariant
            i <= messages@.len(),
            mv == message_views(messages@),
            last_with_role(mv, role@, mv.len()) == last_with_role(mv, role@, i as nat),
        decreases i,
    {
        assert(mv[i - 1] == messages@[i - 1]@);
        if same(messages[i - 1].role.as_str(), role) {
            return Some(i - 1);
        }
        i -= 1;
    }
    None
}

/// Whether the last tool result is an error.
pub open spec fn ends_in_error(msgs: Seq<MessageView>) -> bool {
    last_with_role(msgs, "tool"@, msgs.len()) matches Some(i) && looks_like_error(msgs[i].text)
}

/// Decides [`ends_in_error`].
pub fn recent_message_is_tool_error(messages: &[IncomingMessage]) -> (r: bool)
    ensures
        r == ends_in_error(message_views(messages@)),
{
    match find_last(messages, "tool") {
        Some(i) => {
            assert(message_views(messages@)[i as int] == messages@[i as int]@);
            f28_text_looks_like_error(messages[i].content.text.as_str())
        },
        None => false,
    }
}

} // verus!

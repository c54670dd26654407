//! The messages of a request, as the chat template takes them.
use vstd::prelude::*;
use crate::json::{no_members, object, push_member, push_value, Json};
use crate::json::{
    json_views, key_at, lemma_message_keys, member_of, member_views, JsonView,
};
use crate::json_text::parse_json;
use crate::json_text::text_json;
use crate::keyed::count_on;
use crate::keyed::capped;
use crate::messages::IncomingMessage;
use crate::messages::{incoming_views, message_views, MessageView};
use crate::text::{begins, chars_of, find_chars, has, own, same, string_of_all, CharSet};
use crate::text::{contains, find, lemma_find_from, occurs_at, starts_with, views};
use crate::tools::IncomingToolCall;
use crate::tools::{opt_view, CallView};
use crate::trim::{char_views, lines_of, part, trim_chars};
use crate::trim::{
    all_in, law_trimmed_text_is_kept, law_trimming_takes_the_ends, lemma_lead, lines, trim,
    trim_start,
};

verus! {

/// A message as the chat template takes it.
#[derive(Debug)]
pub struct MsgEntry {
    /// Who speaks.
    pub role: String,
    /// What is said.
    pub content: String,
    /// The calls, with their arguments read.
    pub tool_calls: Option<Vec<Json>>,
    /// The number of images.
    pub image_count: usize,
    /// How many tool results up to this one, which is a failed tool result,
    /// failed in a row; 0 for every other message.
    pub failures_in_a_row: u32,
}

/// What a [`MsgEntry`] says.
#[verifier::ext_equal]
pub struct EntryView {
    pub role: Seq<char>,
    pub content: Seq<char>,
    pub tool_calls: Option<Seq<JsonView>>,
    pub image_count: int,
    pub failures_in_a_row: u32,
}

/// The views of optional values.
pub open spec fn opt_json_views(o: Option<Vec<Json>>) -> Option<Seq<JsonView>> {
    match o {
        Some(v) => Some(json_views(v@)),
        None => None,
    }
}

impl View for MsgEntry {
    type V = EntryView;

    open spec fn view(&self) -> EntryView {
        EntryView {
            role: self.role@,
            content: self.content@,
            tool_calls: opt_json_views(self.tool_calls),
            image_count: self.image_count as int,
            failures_in_a_row: self.failures_in_a_row,
        }
    }
}

/// The views of a sequence of entries.
pub open spec fn entry_views(s: Seq<MsgEntry>) -> Seq<EntryView> {
    s.map_values(|e: MsgEntry| e@)
}

/// What the entries depend on beside the messages.
#[derive(Debug, Clone, Copy, PartialEq, Eq, Structural)]
pub struct EntryContext {
    /// Whether tools are active.
    pub tools_active: bool,
    /// Whether the model thinks while tools are active.
    pub thinking_in_tools: bool,
    /// Whether the model's template knows thinking.
    pub supports_thinking: bool,
}

// ---------------------------------------------------------------------------
// Calls
// ---------------------------------------------------------------------------
/// A call as the template takes it.
pub open spec fn call_json(c: CallView, args: JsonView) -> JsonView {
    JsonView::Object(
        seq![
            (
                "id"@,
                JsonView::Str(
                    match c.id {
                        Some(id) => id,
                        None => ""@,
                    },
                ),
            ),
            ("type"@, JsonView::Str("function"@)),
            (
                "function"@,
                JsonView::Object(
                    seq![("name"@, JsonView::Str(c.name)), ("arguments"@, args)],
                ),
            ),
        ],
    )
}

/// The arguments of a call, read; an empty object where they are no JSON.
pub open spec fn read_args(text: Seq<char>) -> JsonView {
    match text_json(text) {
        Some(j) => j,
        None => JsonView::Object(Seq::empty()),
    }
}

/// Computes [`call_json`].
pub fn tool_call_json(c: &IncomingToolCall, args: Json) -> (r: Json)
    ensures
        r@ == call_json(c@, args@),
{
    let mut function = no_members();
    push_member(&mut function, "name", Json::text(c.function.name.as_str()));
    push_member(&mut function, "arguments", args);
    let id = match &c.id {
        Some(id) => Json::text(id.as_str()),
        None => Json::text(""),
    };
    let ghost fv = member_views(function@);
    assert(fv =~= seq![("name"@, JsonView::Str(c@.name)), ("arguments"@, args@)]);
    let mut o = no_members();
    push_member(&mut o, "id", id);
    push_member(&mut o, "type", Json::text("function"));
    push_member(&mut o, "function", object(function));
    let ghost ov = member_views(o@);
    proof {
        let want = call_json(c@, args@)->Object_0;
        assert(ov =~= want);
    }
    object(o)
}

/// Calls as the template takes them.
pub open spec fn calls_json(calls: Seq<CallView>) -> Seq<JsonView> {
    calls.map_values(|c: CallView| call_json(c, read_args(c.arguments)))
}

/// The calls of an assistant message as the template takes them.
pub open spec fn entry_calls(m: MessageView) -> Option<Seq<JsonView>> {
    match m.tool_calls {
        Some(calls) => if m.role == "assistant"@ && calls.len() > 0 {
            Some(calls_json(calls))
        } else {
            None
        },
        None => None,
    }
}

/// Computes [`calls_json`].
pub fn read_calls(calls: &Vec<IncomingToolCall>) -> (r: Vec<Json>)
    ensures
        json_views(r@) == calls_json(incoming_views(calls@)),
{
    let ghost cv = incoming_views(calls@);
    let ghost want = calls_json(cv);
    let mut out: Vec<Json> = Vec::new();
    let mut i: usize = 0;
    assert(json_views(out@) =~= want.take(0));
    while i < calls.len()
        invariant
            i <= calls@.len(),
            cv == incoming_views(calls@),
            want == calls_json(cv),
            json_views(out@) == want.take(i as int),
        decreases calls@.len() - i,
    {
        let args = match parse_json(calls[i].function.arguments.as_str()) {
            Some(j) => j,
            None => {
                object(no_members())
            },
        };
        assert(cv[i as int] == calls@[i as int]@);
        assert(args@ == read_args(cv[i as int].arguments));
        push_value(&mut out, tool_call_json(&calls[i], args));
        i += 1;
        assert(json_views(out@) =~= want.take(i as int));
    }
    assert(want.take(i as int) =~= want);
    out
}

/// Computes [`entry_calls`].
fn calls_of(m: &IncomingMessage) -> (r: Option<Vec<Json>>)
    ensures
        opt_json_views(r) == entry_calls(m@),
{
    let calls = match &m.tool_calls {
        Some(c) => c,
        None => return None,
    };
    if calls.len() == 0 || !same(m.role.as_str(), "assistant") {
        return None;
    }
    Some(read_calls(calls))
}

// ---------------------------------------------------------------------------
// Entries
// ---------------------------------------------------------------------------
/// The last of the first `n` messages that is a question of the user, not a
/// tool result in the user's name.
pub open spec fn last_question(msgs: Seq<MessageView>, n: nat) -> Option<int>
    decreases n,
{
    if n == 0 || n > msgs.len() {
        None
    } else if msgs[n - 1].role == "user"@ && !starts_with(
        msgs[n - 1].text,
        "<tool_response>"@,
    ) {
        Some(n - 1)
    } else {
        last_question(msgs, (n - 1) as nat)
    }
}

/// Behind which message an assistant message gets an empty thinking block.
pub open spec fn question_index(msgs: Seq<MessageView>) -> int {
    match last_question(msgs, msgs.len()) {
        Some(i) => i,
        None => if msgs.len() > 0 {
            msgs.len() - 1
        } else {
            0
        },
    }
}

/// Whether a message is taken as a tool result.
pub open spec fn is_result(ctx: EntryContext, m: MessageView) -> bool {
    ctx.tools_active && m.role == "tool"@
}

/// How many tool results failed in a row up to the first `n` messages.
pub open spec fn failures_upto(
    ctx: EntryContext,
    msgs: Seq<MessageView>,
    failed: Seq<bool>,
    n: nat,
) -> u32
    decreases n,
{
    if n == 0 || n > msgs.len() {
        0
    } else {
        let before = failures_upto(ctx, msgs, failed, (n - 1) as nat);
        if is_result(ctx, msgs[n - 1]) {
            if failed[n - 1] {
                capped(before as nat + 1)
            } else {
                0
            }
        } else {
            before
        }
    }
}

/// The content of a message: behind the last question, an assistant message of
/// a thinking model gets an empty thinking block, unless thinking is off while
/// tools are active.
pub open spec fn entry_content(ctx: EntryContext, msgs: Seq<MessageView>, i: int) -> Seq<char> {
    if msgs[i].role == "assistant"@ && ctx.supports_thinking && i > question_index(msgs) && !(
    ctx.tools_active && !ctx.thinking_in_tools) {
        "<think>\n\n</think>\n\n"@ + msgs[i].text
    } else {
        msgs[i].text
    }
}

/// The entry of a message.
pub open spec fn entry(
    ctx: EntryContext,
    msgs: Seq<MessageView>,
    failed: Seq<bool>,
    i: int,
) -> EntryView {
    let m = msgs[i];
    if is_result(ctx, m) {
        EntryView {
            role: "tool"@,
            content: m.text,
            tool_calls: None,
            image_count: 0,
            failures_in_a_row: failures_upto(ctx, msgs, failed, (i + 1) as nat),
        }
    } else {
        EntryView {
            role: m.role,
            content: entry_content(ctx, msgs, i),
            tool_calls: entry_calls(m),
            image_count: m.images.len() as int,
            failures_in_a_row: 0,
        }
    }
}

/// The entries of the first `n` messages.
pub open spec fn entries(
    ctx: EntryContext,
    msgs: Seq<MessageView>,
    failed: Seq<bool>,
    n: nat,
) -> Seq<EntryView> {
    Seq::new(n, |i: int| entry(ctx, msgs, failed, i))
}

/// The images of the first `n` messages, in order. Those of tool results are
/// left out.
pub open spec fn all_images(ctx: EntryContext, msgs: Seq<MessageView>, n: nat) -> Seq<Seq<char>>
    decreases n,
{
    if n == 0 || n > msgs.len() {
        Seq::empty()
    } else {
        let before = all_images(ctx, msgs, (n - 1) as nat);
        if is_result(ctx, msgs[n - 1]) {
            before
        } else {
            before + msgs[n - 1].images
        }
    }
}

// ---------------------------------------------------------------------------
// The working directory
// ---------------------------------------------------------------------------
/// A text in small letters, as Unicode has them.
pub uninterp spec fn lowercase(s: Seq<char>) -> Seq<char>;

/// `str::to_lowercase`: the text in small letters, by Unicode's tables, which
/// are not written out here.
#[verifier::external_body]
fn to_lowercase(s: &str) -> (r: String)
    ensures
        r@ == lowercase(s@),
{
    s.to_lowercase()
}

/// The directory that a line names, where `low` is the line in small letters:
/// what follows its first colon, without white space and quotation marks
/// around it.
pub open spec fn directory_in(line: Seq<char>, low: Seq<char>) -> Option<Seq<char>> {
    if contains(low, "working directory"@) || contains(low, "working_directory"@) || contains(
        low,
        "cwd:"@,
    ) {
        match find(line, ":"@) {
            Some(p) => {
                let path = trim(trim(line.skip(p + 1), CharSet::White), CharSet::Quote);
                if path.len() > 0 {
                    Some(path)
                } else {
                    None
                }
            },
            None => None,
        }
    } else {
        None
    }
}

/// Computes [`directory_in`].
pub fn directory_of_line(line: &Vec<char>, low: &str) -> (r: Option<String>)
    ensures
        opt_view(r) == directory_in(line@, low@),
{
    if !(has(low, "working directory") || has(low, "working_directory") || has(low, "cwd:")) {
        return None;
    }
    let colon = chars_of(":");
    proof {
        reveal_strlit(":");
    }
    match find_chars(line, &colon, 0) {
        Some(p) => {
            let rest = part(line, p + 1, line.len());
            assert(rest@ =~= line@.skip(p + 1));
            let path = trim_chars(&trim_chars(&rest, CharSet::White), CharSet::Quote);
            if path.len() > 0 {
                Some(string_of_all(&path))
            } else {
                None
            }
        },
        None => None,
    }
}

/// The directory that the first line from `i` on that names one does.
pub open spec fn directory_from(ls: Seq<Seq<char>>, i: int) -> Option<Seq<char>>
    decreases ls.len() - i,
{
    if i < 0 || i >= ls.len() {
        None
    } else {
        match directory_in(ls[i], lowercase(ls[i])) {
            Some(p) => Some(p),
            None => directory_from(ls, i + 1),
        }
    }
}

/// The first entry from `i` on that is the system's.
pub open spec fn system_entry(es: Seq<EntryView>, i: int) -> Option<int>
    decreases es.len() - i,
{
    if i < 0 || i >= es.len() {
        None
    } else if es[i].role == "system"@ {
        Some(i)
    } else {
        system_entry(es, i + 1)
    }
}

/// The working directory that the system message names.
pub open spec fn cwd_of(es: Seq<EntryView>) -> Option<Seq<char>> {
    match system_entry(es, 0) {
        Some(i) => directory_from(lines(es[i].content), 0),
        None => None,
    }
}

/// The entries with the working directory told to the model, while tools are
/// active.
pub open spec fn with_cwd(
    es: Seq<EntryView>,
    tools_active: bool,
    cwd: Option<Seq<char>>,
) -> Seq<EntryView> {
    match cwd {
        Some(path) => if tools_active && es.len() > 0 && es[0].role == "system"@ {
            es.update(
                0,
                (EntryView {
                    content: es[0].content + "\n<environment>\nworking_directory: "@ + path
                        + "\n</environment>"@,
                    ..es[0]
                }),
            )
        } else {
            es
        },
        None => es,
    }
}

/// Computes [`cwd_of`].
fn find_cwd(entries: &Vec<MsgEntry>) -> (r: Option<String>)
    ensures
        opt_view(r) == cwd_of(entry_views(entries@)),
{
    let ghost ev = entry_views(entries@);
    let mut i: usize = 0;
    while i < entries.len() && !same(entries[i].role.as_str(), "system")
        invariant
            i <= entries@.len(),
            ev == entry_views(entries@),
            system_entry(ev, 0) == system_entry(ev, i as int),
        decreases entries@.len() - i,
    {
        assert(ev[i as int] == entries@[i as int]@);
        i += 1;
    }
    if i == entries.len() {
        return None;
    }
    assert(ev[i as int] == entries@[i as int]@);
    let ls = lines_of(&chars_of(entries[i].content.as_str()));
    let ghost lv = char_views(ls@);
    let mut k: usize = 0;
    while k < ls.len()
        invariant
            k <= ls@.len(),
            lv == char_views(ls@),
            ev == entry_views(entries@),
            cwd_of(ev) == directory_from(lv, k as int),
        decreases ls@.len() - k,
    {
        assert(lv[k as int] == ls@[k as int]@);
        let low = to_lowercase(string_of_all(&ls[k]).as_str());
        match directory_of_line(&ls[k], low.as_str()) {
            Some(p) => {
                return Some(p);
            },
            None => {},
        }
        k += 1;
    }
    None
}

// ---------------------------------------------------------------------------
// All of it
// ---------------------------------------------------------------------------
/// The messages as the chat template takes them.
#[derive(Debug)]
pub struct BuildOut {
    /// The entries.
    pub messages: Vec<MsgEntry>,
    /// The images, in order.
    pub images: Vec<String>,
    /// The working directory that the system message names.
    pub cwd_hint: Option<String>,
}

/// Pushes copies of some strings.
fn push_all(to: &mut Vec<String>, from: &Vec<String>)
    ensures
        views(final(to)@) == views(old(to)@) + views(from@),
{
    let ghost before = views(to@);
    let mut i: usize = 0;
    assert(views(to@) =~= before + views(from@).take(0));
    while i < from.len()
        invariant
            i <= from@.len(),
            views(to@) == before + views(from@).take(i as int),
        decreases from@.len() - i,
    {
        let ghost held = to@;
        let s = from[i].clone();
        let ghost sv = s@;
        to.push(s);
        i += 1;
        assert(views(to@) =~= views(held).push(sv));
        assert(views(to@) =~= before + views(from@).take(i as int));
    }
    assert(views(from@).take(i as int) =~= views(from@));
}

/// Turns the messages of a request into entries, collects their images and
/// finds the working directory. `failed` says of each message whether its text
/// reads like an error.
pub fn build_msg_entries(
    messages: &Vec<IncomingMessage>,
    failed: &Vec<bool>,
    ctx: &EntryContext,
) -> (r: BuildOut)
    requires
        failed@.len() == messages@.len(),
    ensures
        ({
            let mv = message_views(messages@);
            let es = entries(*ctx, mv, failed@, mv.len());
            &&& opt_view(r.cwd_hint) == cwd_of(es)
            &&& entry_views(r.messages@) == with_cwd(es, ctx.tools_active, cwd_of(es))
            &&& views(r.images@) == all_images(*ctx, mv, mv.len())
        }),
{
    let ghost mv = message_views(messages@);
    let ghost n = mv.len();
    let mut k: usize = messages.len();
    while k > 0 && !(same(messages[k - 1].role.as_str(), "user") && !begins(
        messages[k - 1].content.text.as_str(),
        "<tool_response>",
    ))
        invariant
            k <= messages@.len(),
            mv == message_views(messages@),
            last_question(mv, mv.len()) == last_question(mv, k as nat),
        decreases k,
    {
        assert(mv[k - 1] == messages@[k - 1]@);
        k -= 1;
    }
    let question: usize = if k > 0 {
        k - 1
    } else if messages.len() > 0 {
        messages.len() - 1
    } else {
        0
    };
    proof {
        if k > 0 {
            assert(mv[k - 1] == messages@[k - 1]@);
        }
        assert(question == question_index(mv));
    }
    let mut out: Vec<MsgEntry> = Vec::new();
    let mut images: Vec<String> = Vec::new();
    let mut in_a_row: u32 = 0;
    let mut i: usize = 0;
    assert(entry_views(out@) =~= entries(*ctx, mv, failed@, 0));
    assert(views(images@) =~= Seq::<Seq<char>>::empty());
    while i < messages.len()
        invariant
            i <= messages@.len(),
            failed@.len() == messages@.len(),
            mv == message_views(messages@),
            question == question_index(mv),
            in_a_row == failures_upto(*ctx, mv, failed@, i as nat),
            entry_views(out@) == entries(*ctx, mv, failed@, i as nat),
            views(images@) == all_images(*ctx, mv, i as nat),
        decreases messages@.len() - i,
    {
        let m = &messages[i];
        let ghost before = out@;
        proof {
            assert(mv[i as int] == m@);
        }
        if ctx.tools_active && same(m.role.as_str(), "tool") {
            if failed[i] {
                in_a_row = count_on(in_a_row);
            } else {
                in_a_row = 0;
            }
            let e = MsgEntry {
                role: own("tool"),
                content: m.content.text.clone(),
                tool_calls: None,
                image_count: 0,
                failures_in_a_row: in_a_row,
            };
            let ghost v = e@;
            assert(v =~= entry(*ctx, mv, failed@, i as int));
            out.push(e);
            assert(entry_views(out@) =~= entry_views(before).push(v));
        } else {
            let mut text = String::new();
            if same(m.role.as_str(), "assistant") && ctx.supports_thinking && i > question && !(
            ctx.tools_active && !ctx.thinking_in_tools) {
                text.append("<think>\n\n</think>\n\n");
            }
            text.append(m.content.text.as_str());
            assert(text@ =~= entry_content(*ctx, mv, i as int));
            let e = MsgEntry {
                role: m.role.clone(),
                content: text,
                tool_calls: calls_of(m),
                image_count: m.content.images.len(),
                failures_in_a_row: 0,
            };
            let ghost v = e@;
            assert(v =~= entry(*ctx, mv, failed@, i as int));
            out.push(e);
            assert(entry_views(out@) =~= entry_views(before).push(v));
            push_all(&mut images, &m.content.images);
        }
        i += 1;
        assert(entry_views(out@) =~= entries(*ctx, mv, failed@, i as nat));
    }
    let cwd = find_cwd(&out);
    let ghost es = entry_views(out@);
    if ctx.tools_active && out.len() > 0 {
        assert(es[0] == out@[0]@);
        match &cwd {
            Some(path) => {
                if same(out[0].role.as_str(), "system") {
                    let first = out.remove(0);
                    let mut content = first.content;
                    content.append("\n<environment>\nworking_directory: ");
                    content.append(path.as_str());
                    content.append("\n</environment>");
                    let e = MsgEntry { content, ..first };
                    out.insert(0, e);
                }
            },
            None => {},
        }
    }
    assert(entry_views(out@) =~= with_cwd(es, ctx.tools_active, opt_view(cwd)));
    BuildOut { messages: out, images, cwd_hint: cwd }
}

// ---------------------------------------------------------------------------
// Laws
// ---------------------------------------------------------------------------
/// One text ends with another.
pub open spec fn ends_with(s: Seq<char>, t: Seq<char>) -> bool {
    t.len() <= s.len() && s.skip(s.len() - t.len()) == t
}

/// Every message reaches the template: there is an entry for each, in order,
/// with its role and with its text at the end of its content. Nothing stands
/// before the text but an empty thinking block, and that only before an
/// assistant's behind the last question; a tool's result is the text itself.
pub proof fn law_entries_say_the_messages(
    ctx: EntryContext,
    msgs: Seq<MessageView>,
    failed: Seq<bool>,
    i: int,
)
    requires
        0 <= i < msgs.len(),
    ensures
        ({
            let es = entries(ctx, msgs, failed, msgs.len());
            &&& es.len() == msgs.len()
            &&& es[i].role == msgs[i].role
            &&& ends_with(es[i].content, msgs[i].text)
            &&& msgs[i].role != "assistant"@ ==> es[i].content == msgs[i].text
            &&& es[i].content.len() == msgs[i].text.len() || es[i].content
                == "<think>\n\n</think>\n\n"@ + msgs[i].text
            &&& es[i].content != msgs[i].text ==> ctx.supports_thinking && forall|j: int|
                i <= j < msgs.len() ==> !((#[trigger] msgs[j]).role == "user"@ && !starts_with(
                    msgs[j].text,
                    "<tool_response>"@,
                ))
            &&& !(ctx.tools_active && msgs[i].role == "tool"@) ==> es[i].image_count
                == msgs[i].images.len()
        }),
{
    let es = entries(ctx, msgs, failed, msgs.len());
    let t = msgs[i].text;
    assert(t.skip(0) =~= t);
    let think = "<think>\n\n</think>\n\n"@ + t;
    assert(think.skip(think.len() - t.len()) =~= t);
    reveal_strlit("assistant");
    reveal_strlit("tool");
    assert("assistant"@.len() != "tool"@.len());
    lemma_last_question(msgs, msgs.len());
}

proof fn lemma_last_question(msgs: Seq<MessageView>, n: nat)
    requires
        n <= msgs.len(),
    ensures
        match last_question(msgs, n) {
            Some(q) => 0 <= q < n && msgs[q].role == "user"@ && forall|j: int|
                q < j < n ==> !((#[trigger] msgs[j]).role == "user"@ && !starts_with(
                    msgs[j].text,
                    "<tool_response>"@,
                )),
            None => forall|j: int|
                0 <= j < n ==> !((#[trigger] msgs[j]).role == "user"@ && !starts_with(
                    msgs[j].text,
                    "<tool_response>"@,
                )),
        },
    decreases n,
{
    if n > 0 {
        lemma_last_question(msgs, (n - 1) as nat);
    }
}

/// An assistant's message behind the last question is laid out as the model was
/// trained to see it, with an empty thinking block before its text, where the
/// model thinks and thinking is not off while tools are active.
pub proof fn law_thinking_block_is_shown(
    ctx: EntryContext,
    msgs: Seq<MessageView>,
    failed: Seq<bool>,
    q: int,
    i: int,
)
    requires
        0 <= q < i < msgs.len(),
        msgs[q].role == "user"@,
        !starts_with(msgs[q].text, "<tool_response>"@),
        forall|j: int| q < j < msgs.len() ==> (#[trigger] msgs[j]).role != "user"@,
        msgs[i].role == "assistant"@,
        ctx.supports_thinking,
        ctx.tools_active ==> ctx.thinking_in_tools,
    ensures
        entries(ctx, msgs, failed, msgs.len())[i].content == "<think>\n\n</think>\n\n"@
            + msgs[i].text,
{
    reveal_strlit("assistant");
    reveal_strlit("tool");
    assert("assistant"@.len() != "tool"@.len());
    lemma_last_question(msgs, msgs.len());
    lemma_question_is(msgs, msgs.len(), q);
}

proof fn lemma_question_is(msgs: Seq<MessageView>, n: nat, q: int)
    requires
        0 <= q < n <= msgs.len(),
        msgs[q].role == "user"@,
        !starts_with(msgs[q].text, "<tool_response>"@),
        forall|j: int| q < j < msgs.len() ==> (#[trigger] msgs[j]).role != "user"@,
    ensures
        last_question(msgs, n) == Some(q),
    decreases n,
{
    if n - 1 > q {
        assert(msgs[n - 1].role != "user"@);
        lemma_question_is(msgs, (n - 1) as nat, q);
    }
}

/// The calls of an assistant's message reach the template, one for one: each
/// with its identifier, its name and its arguments, read.
pub proof fn law_entries_hold_the_calls(
    ctx: EntryContext,
    msgs: Seq<MessageView>,
    failed: Seq<bool>,
    i: int,
    j: int,
)
    requires
        0 <= i < msgs.len(),
        msgs[i].role == "assistant"@,
        msgs[i].tool_calls matches Some(c) && 0 <= j < c.len(),
    ensures
        ({
            let e = entries(ctx, msgs, failed, msgs.len())[i];
            let c = msgs[i].tool_calls->0[j];
            let shown = e.tool_calls->0[j];
            &&& e.tool_calls is Some
            &&& e.tool_calls->0.len() == msgs[i].tool_calls->0.len()
            &&& member_of(shown, "id"@) == Some(
                JsonView::Str(
                    match c.id {
                        Some(id) => id,
                        None => Seq::empty(),
                    },
                ),
            )
            &&& member_of(shown, "type"@) == Some(JsonView::Str("function"@))
            &&& member_of(shown, "function"@) matches Some(f) && member_of(f, "name"@) == Some(
                JsonView::Str(c.name),
            ) && match text_json(c.arguments) {
                Some(args) => member_of(f, "arguments"@) == Some(args),
                None => member_of(f, "arguments"@) == Some(JsonView::Object(Seq::empty())),
            }
        }),
{
    reveal_strlit("assistant");
    reveal_strlit("tool");
    reveal_strlit("");
    assert(""@ =~= Seq::<char>::empty());
    assert("assistant"@.len() != "tool"@.len());
    lemma_message_keys();
    reveal_with_fuel(key_at, 4);
    let c = msgs[i].tool_calls->0[j];
    let e = entries(ctx, msgs, failed, msgs.len())[i];
    assert(e.tool_calls->0[j] == call_json(c, read_args(c.arguments)));
}

/// The images of a request are those of its messages, in order; those of tool
/// results, which tools do not give, are left out.
pub proof fn law_images_are_those_of_the_messages(ctx: EntryContext, msgs: Seq<MessageView>)
    ensures
        all_images(ctx, msgs, msgs.len()) == Seq::new(
            msgs.len(),
            |i: int| shown_images(ctx, msgs[i]),
        ).flatten(),
{
    lemma_images(ctx, msgs, msgs.len());
}

/// The images of one message that are shown.
pub open spec fn shown_images(ctx: EntryContext, m: MessageView) -> Seq<Seq<char>> {
    if ctx.tools_active && m.role == "tool"@ {
        Seq::empty()
    } else {
        m.images
    }
}

proof fn lemma_images(ctx: EntryContext, msgs: Seq<MessageView>, n: nat)
    requires
        n <= msgs.len(),
    ensures
        all_images(ctx, msgs, n) == Seq::new(n, |i: int| shown_images(ctx, msgs[i])).flatten(),
    decreases n,
{
    let all = Seq::new(n, |i: int| shown_images(ctx, msgs[i]));
    if n > 0 {
        lemma_images(ctx, msgs, (n - 1) as nat);
        let less = Seq::new((n - 1) as nat, |i: int| shown_images(ctx, msgs[i]));
        assert(all =~= less.push(shown_images(ctx, msgs[n - 1])));
        less.lemma_flatten_push(shown_images(ctx, msgs[n - 1]));
        assert(less.flatten() + Seq::<Seq<char>>::empty() =~= less.flatten());
    }
}

/// Failed tool results are counted while they come in a row: one more with each
/// that failed, and from nothing again with one that did not.
pub proof fn law_failures_are_counted_in_a_row(
    ctx: EntryContext,
    msgs: Seq<MessageView>,
    failed: Seq<bool>,
    i: int,
)
    requires
        0 <= i < msgs.len(),
    ensures
        ({
            let es = entries(ctx, msgs, failed, msgs.len());
            let result = ctx.tools_active && msgs[i].role == "tool"@;
            &&& !result || !failed[i] ==> es[i].failures_in_a_row == 0
            &&& result && failed[i] ==> es[i].failures_in_a_row >= 1
            &&& result && failed[i] && i > 0 && ctx.tools_active && msgs[i - 1].role == "tool"@
                ==> es[i].failures_in_a_row == u32::MAX || es[i].failures_in_a_row == es[i
                - 1].failures_in_a_row + 1
        }),
{
}

/// Telling the model the working directory loses nothing: roles, calls, images
/// and the other entries stay, and what the first entry said still begins it.
pub proof fn law_directory_is_added(
    es: Seq<EntryView>,
    tools_active: bool,
    cwd: Option<Seq<char>>,
    i: int,
)
    requires
        0 <= i < es.len(),
    ensures
        ({
            let r = with_cwd(es, tools_active, cwd);
            &&& r.len() == es.len()
            &&& r[i].role == es[i].role
            &&& r[i].tool_calls == es[i].tool_calls
            &&& r[i].image_count == es[i].image_count
            &&& r[i].failures_in_a_row == es[i].failures_in_a_row
            &&& r[i].content.len() >= es[i].content.len() && r[i].content.take(
                es[i].content.len() as int,
            ) == es[i].content
            &&& i > 0 ==> r[i] == es[i]
            &&& !tools_active || cwd is None ==> r[i] == es[i]
            &&& tools_active && es[0].role == "system"@ ==> (cwd matches Some(path) ==> contains(
                r[0].content,
                path,
            ))
        }),
{
    let r = with_cwd(es, tools_active, cwd);
    assert(es[i].content.take(es[i].content.len() as int) =~= es[i].content);
    if let Some(path) = cwd {
        if tools_active && es[0].role == "system"@ {
            let mid = "\n<environment>\nworking_directory: "@;
            let n = (es[0].content.len() + mid.len()) as int;
            assert(r[0].content.take(es[0].content.len() as int) =~= es[0].content);
            assert(r[0].content.subrange(n, n + path.len()) =~= path);
            assert(occurs_at(r[0].content, path, n));
        }
    }
}

/// The working directory is what a line of the system message says behind a
/// colon, without white space or quotation marks around it.
pub proof fn law_directory_stands_in_the_line(line: Seq<char>, low: Seq<char>)
    ensures
        directory_in(line, low) matches Some(path) ==> {
            &&& path.len() > 0
            &&& contains(line, path)
            &&& contains(line, ":"@)
            &&& !CharSet::Quote.has(path[0]) && !CharSet::Quote.has(path.last())
        },
        directory_in(line, low) is Some ==> contains(low, "working directory"@) || contains(
            low,
            "working_directory"@,
        ) || contains(low, "cwd:"@),
{
    reveal_strlit(":");
    lemma_find_from(line, ":"@, 0);
    if let Some(path) = directory_in(line, low) {
        let p = find(line, ":"@)->0;
        let rest = line.skip(p + 1);
        let inner = trim(rest, CharSet::White);
        law_trimming_takes_the_ends(rest, CharSet::White);
        law_trimming_takes_the_ends(inner, CharSet::Quote);
        let (a, b) = choose|a: Seq<char>, b: Seq<char>|
            #![trigger a + inner + b]
            rest == a + inner + b && all_in(a, CharSet::White) && all_in(b, CharSet::White);
        let (c, d) = choose|c: Seq<char>, d: Seq<char>|
            #![trigger c + trim(inner, CharSet::Quote) + d]
            inner == c + trim(inner, CharSet::Quote) + d && all_in(c, CharSet::Quote) && all_in(
                d,
                CharSet::Quote,
            );
        let at = p + 1 + a.len() + c.len();
        assert(line.subrange(at, at + path.len()) =~= path) by {
            assert forall|k: int| 0 <= k < path.len() implies line[at + k] == path[k] by {
                assert(rest[a.len() + c.len() + k] == line[at + k]);
                assert(inner[c.len() + k] == rest[a.len() + (c.len() + k)]);
            }
        }
        assert(occurs_at(line, path, at));
        assert(occurs_at(line, ":"@, p));
    }
}

/// The directory of a line that names one is what stands behind its first
/// colon, without white space and quotation marks round it.
pub proof fn law_directory_is_read(line: Seq<char>, low: Seq<char>, a: Seq<char>, path: Seq<char>)
    requires
        line == a + ": "@ + path,
        contains(low, "working directory"@) || contains(low, "working_directory"@) || contains(
            low,
            "cwd:"@,
        ),
        forall|i: int| 0 <= i < a.len() ==> #[trigger] a[i] != ':',
        path.len() > 0,
        !CharSet::White.has(path[0]) && !CharSet::White.has(path.last()),
        !CharSet::Quote.has(path[0]) && !CharSet::Quote.has(path.last()),
    ensures
        directory_in(line, low) == Some(path),
{
    reveal_strlit(":");
    reveal_strlit(": ");
    let at = a.len() as int;
    assert(line.subrange(at, at + 1) =~= ":"@);
    assert forall|j: int| 0 <= j < at implies !occurs_at(line, ":"@, j) by {
        if occurs_at(line, ":"@, j) {
            assert(line.subrange(j, j + 1)[0] == line[j]);
            assert(line[j] == a[j]);
        }
    }
    crate::text::lemma_find_from_is(line, ":"@, 0, at);
    let rest = line.skip(at + 1);
    assert(rest =~= seq![' '] + path);
    lemma_lead(rest, CharSet::White, 0);
    let t = trim_start(rest, CharSet::White);
    assert(rest[1] == path[0]);
    assert(rest[0] == ' ');
    assert(CharSet::White.has(' '));
    assert(t =~= path);
    law_trimmed_text_is_kept(path, CharSet::White);
    law_trimmed_text_is_kept(path, CharSet::Quote);
}

/// The working directory is that of the first line that names one, in the first
/// message of the system.
pub proof fn law_directory_is_the_systems(es: Seq<EntryView>, i: int, j: int)
    ensures
        (forall|k: int| 0 <= k < es.len() ==> (#[trigger] es[k]).role != "system"@) ==> cwd_of(
            es,
        ) is None,
        0 <= i < es.len() && es[i].role == "system"@ && (forall|k: int|
            0 <= k < i ==> (#[trigger] es[k]).role != "system"@) ==> ({
            let ls = lines(es[i].content);
            &&& 0 <= j < ls.len() && directory_in(ls[j], lowercase(ls[j])) is Some && (forall|
                k: int,
            |
                0 <= k < j ==> directory_in(#[trigger] ls[k], lowercase(ls[k])) is None) ==> cwd_of(
                es,
            ) == directory_in(ls[j], lowercase(ls[j]))
            &&& (forall|k: int|
                0 <= k < ls.len() ==> directory_in(#[trigger] ls[k], lowercase(ls[k])) is None)
                ==> cwd_of(es) is None
        }),
{
    lemma_system_entry(es, 0);
    if let Some(s) = system_entry(es, 0) {
        lemma_directory_from(lines(es[s].content), 0);
    }
}

proof fn lemma_system_entry(es: Seq<EntryView>, i: int)
    requires
        0 <= i,
    ensures
        match system_entry(es, i) {
            Some(k) => i <= k < es.len() && es[k].role == "system"@ && forall|j: int|
                i <= j < k ==> (#[trigger] es[j]).role != "system"@,
            None => forall|j: int| i <= j < es.len() ==> (#[trigger] es[j]).role != "system"@,
        },
    decreases es.len() - i,
{
    if i < es.len() && es[i].role != "system"@ {
        lemma_system_entry(es, i + 1);
    }
}

proof fn lemma_directory_from(ls: Seq<Seq<char>>, i: int)
    requires
        0 <= i,
    ensures
        match directory_from(ls, i) {
            Some(p) => exists|k: int|
                i <= k < ls.len() && directory_in(#[trigger] ls[k], lowercase(ls[k])) == Some(p)
                    && forall|j: int|
                    i <= j < k ==> directory_in(#[trigger] ls[j], lowercase(ls[j])) is None,
            None => forall|j: int|
                i <= j < ls.len() ==> directory_in(#[trigger] ls[j], lowercase(ls[j])) is None,
        },
    decreases ls.len() - i,
{
    if i < ls.len() {
        if let Some(p) = directory_in(ls[i], lowercase(ls[i])) {
            assert(directory_in(ls[i], lowercase(ls[i])) == Some(p));
        } else {
            lemma_directory_from(ls, i + 1);
            if let Some(p) = directory_from(ls, i + 1) {
                let k = choose|k: int|
                    i + 1 <= k < ls.len() && directory_in(#[trigger] ls[k], lowercase(ls[k]))
                        == Some(p) && forall|j: int|
                        i + 1 <= j < k ==> directory_in(#[trigger] ls[j], lowercase(ls[j])) is None;
                assert forall|j: int| i <= j < k implies directory_in(
                    #[trigger] ls[j],
                    lowercase(ls[j]),
                ) is None by {
                    if j == i {
                        assert(directory_in(ls[i], lowercase(ls[i])) is None);
                    }
                }
                assert(directory_in(ls[k], lowercase(ls[k])) == Some(p));
            }
        }
    }
}

/// In a conversation without a question no message gets a thinking block.
pub proof fn law_no_question_no_thinking_block(
    ctx: EntryContext,
    msgs: Seq<MessageView>,
    failed: Seq<bool>,
    i: int,
)
    requires
        0 <= i < msgs.len(),
        forall|j: int| 0 <= j < msgs.len() ==> (#[trigger] msgs[j]).role != "user"@,
        msgs[i].role == "assistant"@,
    ensures
        entries(ctx, msgs, failed, msgs.len())[i].content == msgs[i].text,
{
    reveal_strlit("assistant");
    reveal_strlit("tool");
    assert("assistant"@.len() != "tool"@.len());
    lemma_last_question(msgs, msgs.len());
}

} // verus!

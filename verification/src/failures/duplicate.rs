//! Writes that change nothing, errors that were lost from sight, and tool calls
//! in prose.
use vstd::prelude::*;
use crate::failures::calls::assistant_calls;
use crate::failures::circuit::find_anchor;
use crate::failures::circuit::refusal_anchor;
use crate::failures::classification::f23_normalize_and_hash;
use crate::failures::classification::content_hash;
use crate::failures::notice::count_times;
use crate::failures::notice::times_text;
use crate::failures::stall::f28_text_looks_like_error;
use crate::failures::stall::looks_like_error;
use crate::json::{lookup, Json};
use crate::json::{get, member_views, str_of, JsonView, Members};
use crate::json_text::parse_json;
use crate::json_text::text_json;
use crate::keyed::KeyedList;
use crate::keyed::{capped, counts, times};
use crate::messages::IncomingMessage;
use crate::messages::{
    incoming_views, lemma_message_views_push, message_views, tool_message, MessageView,
};
use crate::text::{begins, chars_of, same, string_of_all, CharSet};
use crate::text::{starts_with, views};
use crate::tool_args::{classify_tool, ToolKind};
use crate::tool_args::kind_of;
use crate::tools::{CallView, IncomingToolCall};
use crate::trim::{join_strings, trim_chars};
use crate::trim::{join, trim};

verus! {

// ---------------------------------------------------------------------------
// Duplicate writes
// ---------------------------------------------------------------------------
/// A file that was written before with the same content.
#[derive(Debug, Clone)]
pub struct F49DuplicateWrite {
    /// The file.
    pub file_path: String,
    /// How often it was written with that content.
    pub prior_count: u32,
}

/// A write: the file, and the hash of what was written.
pub type WriteKey = (Seq<char>, u64);

/// The file that a write names.
pub open spec fn write_path(o: Members) -> Option<Seq<char>> {
    match get(o, "file_path"@) {
        Some(v) => str_of(v),
        None => match get(o, "filePath"@) {
            Some(v) => str_of(v),
            None => None,
        },
    }
}

/// The text of a member, where it is one.
pub open spec fn text_of(o: Members, key: Seq<char>) -> Option<Seq<char>> {
    match get(o, key) {
        Some(v) => str_of(v),
        None => None,
    }
}

/// The write that a call with these arguments makes. A write is known by its
/// content, an edit by what it replaces and what it puts there.
pub open spec fn write_of(kind: ToolKind, args: JsonView) -> Option<WriteKey> {
    match args {
        JsonView::Object(o) => match (kind, write_path(o)) {
            (ToolKind::Write, Some(path)) => Some(
                (
                    path,
                    content_hash(
                        match text_of(o, "content"@) {
                            Some(c) => c,
                            None => Seq::empty(),
                        },
                    ),
                ),
            ),
            (ToolKind::Edit, Some(path)) => edit_of(path, o),
            (ToolKind::MultiEdit, Some(path)) => edit_of(path, o),
            _ => None,
        },
        _ => None,
    }
}

/// The write that an edit makes.
pub open spec fn edit_of(path: Seq<char>, o: Members) -> Option<WriteKey> {
    match (text_of(o, "oldString"@), text_of(o, "newString"@)) {
        (Some(a), Some(b)) => Some((path, content_hash(a.push('\u{1F}') + b))),
        _ => None,
    }
}

/// The write that a call makes.
pub open spec fn call_write(name: Seq<char>, args_text: Seq<char>) -> Option<WriteKey> {
    match text_json(args_text) {
        Some(args) => write_of(kind_of(name), args),
        None => None,
    }
}

/// The text of a value, where it is one.
fn text_in<'a>(o: &'a Vec<(String, Json)>, key: &str) -> (r: Option<&'a String>)
    ensures
        match r {
            Some(s) => text_of(member_views(o@), key@) == Some(s@),
            None => text_of(member_views(o@), key@) is None,
        },
{
    match lookup(o, key) {
        Some(v) => v.as_str(),
        None => None,
    }
}

/// Computes [`write_path`].
fn path_in<'a>(o: &'a Vec<(String, Json)>) -> (r: Option<&'a String>)
    ensures
        match r {
            Some(s) => write_path(member_views(o@)) == Some(s@),
            None => write_path(member_views(o@)) is None,
        },
{
    match lookup(o, "file_path") {
        Some(v) => v.as_str(),
        None => text_in(o, "filePath"),
    }
}

/// Computes [`write_of`].
pub fn write_in(kind: ToolKind, args: &Json) -> (r: Option<(String, u64)>)
    ensures
        match r {
            Some(w) => write_of(kind, args@) == Some(w@),
            None => write_of(kind, args@) is None,
        },
{
    let is_write = match kind {
        ToolKind::Write => true,
        ToolKind::Edit => false,
        ToolKind::MultiEdit => false,
        _ => return None,
    };
    let o = match args.as_object() {
        Some(o) => o,
        None => return None,
    };
    let path = match path_in(o) {
        Some(p) => p.clone(),
        None => return None,
    };
    if is_write {
        let h = match text_in(o, "content") {
            Some(c) => f23_normalize_and_hash(c.as_str()),
            None => {
                proof {
                    reveal_strlit("");
                    assert(""@ =~= Seq::<char>::empty());
                }
                f23_normalize_and_hash("")
            },
        };
        return Some((path, h));
    }
    match (text_in(o, "oldString"), text_in(o, "newString")) {
        (Some(a), Some(b)) => {
            let mut s = a.clone();
            s.push('\u{1F}');
            s.append(b.as_str());
            Some((path, f23_normalize_and_hash(s.as_str())))
        },
        _ => None,
    }
}

/// Takes the file and the hash of the content out of a write or an edit.
pub fn f49_extract_write_path_and_content(name: &str, args_json: &str) -> (r: Option<
    (String, u64),
>)
    ensures
        match r {
            Some(w) => call_write(name@, args_json@) == Some(w@),
            None => call_write(name@, args_json@) is None,
        },
{
    match parse_json(args_json) {
        Some(args) => write_in(classify_tool(name), &args),
        None => None,
    }
}

/// The writes of some calls.
pub open spec fn writes_of_calls(calls: Seq<CallView>) -> Seq<WriteKey>
    decreases calls.len(),
{
    if calls.len() == 0 {
        Seq::empty()
    } else {
        let before = writes_of_calls(calls.drop_last());
        match call_write(calls.last().name, calls.last().arguments) {
            Some(w) => before.push(w),
            None => before,
        }
    }
}

/// The writes of the assistant.
pub open spec fn writes(msgs: Seq<MessageView>) -> Seq<WriteKey>
    decreases msgs.len(),
{
    if msgs.len() == 0 {
        Seq::empty()
    } else {
        writes(msgs.drop_last()) + writes_of_calls(assistant_calls(msgs.last()))
    }
}

/// The last of the first `n` messages in which the assistant makes a call.
pub open spec fn last_calling(msgs: Seq<MessageView>, n: nat) -> Option<int>
    decreases n,
{
    if n == 0 || n > msgs.len() {
        None
    } else if assistant_calls(msgs[n - 1]).len() > 0 {
        Some(n - 1)
    } else {
        last_calling(msgs, (n - 1) as nat)
    }
}

/// Those of the writes `now` that stand among the writes `before`, each taken
/// once, with their number there.
pub open spec fn repeated(before: Seq<WriteKey>, now: Seq<WriteKey>) -> Seq<(Seq<char>, u32)>
    decreases now.len(),
{
    if now.len() == 0 {
        Seq::empty()
    } else {
        let so_far = repeated(before, now.drop_last());
        let w = now.last();
        if now.drop_last().contains(w) || times(before, w) == 0 {
            so_far
        } else {
            so_far.push((w.0, capped(times(before, w))))
        }
    }
}

/// The writes that the last calling message makes again.
pub open spec fn duplicate_writes(msgs: Seq<MessageView>) -> Seq<(Seq<char>, u32)> {
    match last_calling(msgs, msgs.len()) {
        Some(i) => repeated(writes(msgs.take(i)), writes_of_calls(assistant_calls(msgs[i]))),
        None => Seq::empty(),
    }
}

impl View for F49DuplicateWrite {
    type V = (Seq<char>, u32);

    open spec fn view(&self) -> (Seq<char>, u32) {
        (self.file_path@, self.prior_count)
    }
}

/// The views of a sequence of duplicate writes.
pub open spec fn duplicate_views(s: Seq<F49DuplicateWrite>) -> Seq<(Seq<char>, u32)> {
    s.map_values(|d: F49DuplicateWrite| d@)
}

/// Counts the writes of some calls.
fn count_writes(
    seen: &mut KeyedList<(String, u64), u32>,
    calls: &Vec<IncomingToolCall>,
    Ghost(before): Ghost<Seq<WriteKey>>,
)
    requires
        old(seen).wf(),
        counts(old(seen)@, before),
    ensures
        final(seen).wf(),
        counts(final(seen)@, before + writes_of_calls(incoming_views(calls@))),
{
    let ghost cv = incoming_views(calls@);
    let mut j: usize = 0;
    assert(cv.take(0) =~= Seq::<CallView>::empty());
    assert(before + writes_of_calls(cv.take(0)) =~= before);
    while j < calls.len()
        invariant
            j <= calls@.len(),
            cv == incoming_views(calls@),
            seen.wf(),
            counts(seen@, before + writes_of_calls(cv.take(j as int))),
        decreases calls@.len() - j,
    {
        let call = &calls[j];
        let ghost so_far = before + writes_of_calls(cv.take(j as int));
        proof {
            assert(cv[j as int] == call@);
            assert(cv.take(j + 1).drop_last() =~= cv.take(j as int));
        }
        match f49_extract_write_path_and_content(
            call.function.name.as_str(),
            call.function.arguments.as_str(),
        ) {
            Some(w) => {
                let ghost wv = w@;
                let _n = seen.bump(w, Ghost(so_far));
                assert(so_far.push(wv) =~= before + writes_of_calls(cv.take(j + 1)));
            },
            None => {},
        }
        j += 1;
    }
    assert(cv.take(j as int) =~= cv);
}

/// Finds the writes of the last calling message that were made before with the
/// same content. Each is listed once.
pub fn f49_detect_duplicate_writes(messages: &[IncomingMessage]) -> (r: Vec<F49DuplicateWrite>)
    ensures
        duplicate_views(r@) == duplicate_writes(message_views(messages@)),
{
    let ghost mv = message_views(messages@);
    let mut dups: Vec<F49DuplicateWrite> = Vec::new();
    assert(duplicate_views(dups@) =~= Seq::<(Seq<char>, u32)>::empty());
    let mut n: usize = messages.len();
    while n > 0 && !makes_calls(&messages[n - 1])
        invariant
            n <= messages@.len(),
            mv == message_views(messages@),
            last_calling(mv, mv.len()) == last_calling(mv, n as nat),
        decreases n,
    {
        assert(mv[n - 1] == messages@[n - 1]@);
        n -= 1;
    }
    if n == 0 {
        return dups;
    }
    let last = n - 1;
    assert(mv[last as int] == messages@[last as int]@);
    assert(last_calling(mv, mv.len()) == Some(last as int));
    let mut seen: KeyedList<(String, u64), u32> = KeyedList::new();
    let mut i: usize = 0;
    assert(mv.take(0) =~= Seq::<MessageView>::empty());
    while i < last
        invariant
            i <= last < messages@.len(),
            mv == message_views(messages@),
            seen.wf(),
            counts(seen@, writes(mv.take(i as int))),
        decreases last - i,
    {
        let m = &messages[i];
        proof {
            assert(mv[i as int] == m@);
            assert(mv.take(i + 1).drop_last() =~= mv.take(i as int));
        }
        let mut counted = false;
        if same(m.role.as_str(), "assistant") {
            match &m.tool_calls {
                Some(calls) => {
                    assert(assistant_calls(m@) == incoming_views(calls@));
                    count_writes(&mut seen, calls, Ghost(writes(mv.take(i as int))));
                    counted = true;
                },
                None => {},
            }
        }
        proof {
            if !counted {
                assert(assistant_calls(m@) =~= Seq::<CallView>::empty());
                assert(writes(mv.take(i as int)) + writes_of_calls(assistant_calls(m@))
                    =~= writes(mv.take(i as int)));
            }
        }
        i += 1;
    }
    let ghost before = writes(mv.take(last as int));
    let calls = match &messages[last].tool_calls {
        Some(c) => c,
        None => return dups,
    };
    let ghost cv = incoming_views(calls@);
    assert(assistant_calls(mv[last as int]) == cv);
    let mut emitted: KeyedList<(String, u64), bool> = KeyedList::new();
    let mut j: usize = 0;
    assert(cv.take(0) =~= Seq::<CallView>::empty());
    while j < calls.len()
        invariant
            j <= calls@.len(),
            cv == incoming_views(calls@),
            seen.wf(),
            counts(seen@, before),
            emitted.wf(),
            forall|k: WriteKey| #[trigger]
                emitted@.contains_key(k) <==> writes_of_calls(cv.take(j as int)).contains(k),
            duplicate_views(dups@) == repeated(before, writes_of_calls(cv.take(j as int))),
        decreases calls@.len() - j,
    {
        let call = &calls[j];
        let ghost so_far = writes_of_calls(cv.take(j as int));
        proof {
            assert(cv[j as int] == call@);
            assert(cv.take(j + 1).drop_last() =~= cv.take(j as int));
        }
        match f49_extract_write_path_and_content(
            call.function.name.as_str(),
            call.function.arguments.as_str(),
        ) {
            Some(w) => {
                let ghost wv = w@;
                proof {
                    assert(so_far.push(wv).drop_last() =~= so_far);
                    lemma_push_contains(so_far, wv);
                }
                let known = match emitted.get(&w) {
                    Some(_b) => true,
                    None => false,
                };
                if !known {
                    match seen.get(&w) {
                        Some(count) => {
                            let ghost held = dups@;
                            let d = F49DuplicateWrite {
                                file_path: w.0.clone(),
                                prior_count: *count,
                            };
                            let ghost dv = d@;
                            assert(dv == (wv.0, capped(times(before, wv))));
                            dups.push(d);
                            assert(duplicate_views(dups@) =~= duplicate_views(held).push(dv));
                        },
                        None => {},
                    }
                    emitted.insert(w, true);
                }
            },
            None => {},
        }
        j += 1;
    }
    assert(cv.take(j as int) =~= cv);
    dups
}

proof fn lemma_push_contains<A>(s: Seq<A>, x: A)
    ensures
        forall|k: A| #[trigger] s.push(x).contains(k) <==> (s.contains(k) || k == x),
{
    assert forall|k: A| #[trigger] s.push(x).contains(k) <==> (s.contains(k) || k == x) by {
        if s.contains(k) {
            let q = choose|q: int| 0 <= q < s.len() && s[q] == k;
            assert(s.push(x)[q] == k);
        }
        if k == x {
            assert(s.push(x)[s.len() as int] == k);
        }
    }
}

/// Whether the assistant makes a call in this message.
fn makes_calls(m: &IncomingMessage) -> (r: bool)
    ensures
        r == (assistant_calls(m@).len() > 0),
{
    if !same(m.role.as_str(), "assistant") {
        return false;
    }
    match &m.tool_calls {
        Some(calls) => calls.len() > 0,
        None => false,
    }
}

/// The line of one duplicate write.
pub open spec fn duplicate_line(d: F49DuplicateWrite) -> Seq<char> {
    "- "@ + d.file_path@ + " (already written "@ + times_text(d.prior_count) + " with byte-identical content)"@
}

/// The banner that lists the duplicate writes.
pub open spec fn duplicate_banner(hits: Seq<F49DuplicateWrite>) -> Seq<char> {
    "<atlas_duplicate_write>\nCRITICAL: You are about to write the SAME content to the following file(s) that you ALREADY wrote earlier in this conversation. The new write is byte-identical to a prior write:\n"@ + join(hits.map_values(|d: F49DuplicateWrite| duplicate_line(d)), "\n"@) + "\n\nThe previous write succeeded — re-running it CANNOT fix anything. This means your diagnosis of the underlying error is WRONG. Re-read the ORIGINAL error message that prompted this rewrite (look earlier in the conversation for `[tool error]`, `error:`, or a stderr-like block). Pay attention to the SPECIFIC FILENAME, LINE NUMBER, or symbol it cites — that is what needs to change, not this file.\n\nDo NOT write this file again with the same content. Either (a) write DIFFERENT content addressing the actual error cited, OR (b) reply to the user in plain text describing what you cannot resolve.\n</atlas_duplicate_write>"@
}

/// Computes [`duplicate_banner`].
pub fn f49_build_banner(hits: &[F49DuplicateWrite]) -> (r: String)
    ensures
        r@ == duplicate_banner(hits@),
{
    let ghost lv = hits@.map_values(|d: F49DuplicateWrite| duplicate_line(d));
    let mut ls: Vec<String> = Vec::new();
    let mut i: usize = 0;
    while i < hits.len()
        invariant
            i <= hits@.len(),
            lv == hits@.map_values(|d: F49DuplicateWrite| duplicate_line(d)),
            views(ls@) == lv.take(i as int),
        decreases hits@.len() - i,
    {
        let mut l = "- ".to_owned();
        l.append(hits[i].file_path.as_str());
        l.append(" (already written ");
        l.append(count_times(hits[i].prior_count).as_str());
        l.append(" with byte-identical content)");
        let ghost line = l@;
        let ghost before = ls@;
        assert(line == duplicate_line(hits@[i as int]));
        ls.push(l);
        assert(views(ls@) =~= views(before).push(line));
        i += 1;
        assert(views(ls@) =~= lv.take(i as int));
    }
    assert(lv.take(i as int) =~= lv);
    let mut s = "<atlas_duplicate_write>\nCRITICAL: You are about to write the SAME content to the following file(s) that you ALREADY wrote earlier in this conversation. The new write is byte-identical to a prior write:\n".to_owned();
    s.append(join_strings(&ls, "\n").as_str());
    s.append("\n\nThe previous write succeeded — re-running it CANNOT fix anything. This means your diagnosis of the underlying error is WRONG. Re-read the ORIGINAL error message that prompted this rewrite (look earlier in the conversation for `[tool error]`, `error:`, or a stderr-like block). Pay attention to the SPECIFIC FILENAME, LINE NUMBER, or symbol it cites — that is what needs to change, not this file.\n\nDo NOT write this file again with the same content. Either (a) write DIFFERENT content addressing the actual error cited, OR (b) reply to the user in plain text describing what you cannot resolve.\n</atlas_duplicate_write>");
    s
}

// ---------------------------------------------------------------------------
// The original error
// ---------------------------------------------------------------------------
/// The first tool result at or after `i` that is an error.
pub open spec fn first_error(msgs: Seq<MessageView>, i: int) -> Option<int>
    decreases msgs.len() - i,
{
    if i < 0 || i >= msgs.len() {
        None
    } else if msgs[i].role == "tool"@ && looks_like_error(msgs[i].text) {
        Some(i)
    } else {
        first_error(msgs, i + 1)
    }
}

/// Whether a message repeats the original error.
pub open spec fn is_error_copy(m: MessageView) -> bool {
    m.role == "tool"@ && starts_with(m.text, "[atlas-original-error]"@)
}

/// The text that repeats the original error.
pub open spec fn error_copy_text(original: Seq<char>) -> Seq<char> {
    "[atlas-original-error] You have lost focus on the ORIGINAL error that prompted this work. Re-read it carefully — it likely cites a specific file, line, or symbol that needs to change:\n\n----- BEGIN ORIGINAL ERROR -----\n"@ + trim(original, CharSet::White) + "\n----- END ORIGINAL ERROR -----\n\nAddress THAT error specifically (the file/line it cites), not a generic syntax issue. If you cannot resolve it, reply to the user in plain text describing what is blocking."@
}

/// The messages with the original error repeated at the end, where that is
/// due: at least two messages follow the error, the last is no such copy, and
/// the last assistant message made a call that the copy can answer.
pub open spec fn with_error_copy(msgs: Seq<MessageView>) -> Option<Seq<MessageView>> {
    match (first_error(msgs, 0), refusal_anchor(msgs)) {
        (Some(i), Some((_, id))) => if msgs.len() - (i + 1) >= 2 && !is_error_copy(msgs.last()) {
            Some(msgs.push(tool_message(error_copy_text(msgs[i].text), id)))
        } else {
            None
        },
        _ => None,
    }
}

/// Repeats the first error of the conversation at its end, where it has
/// scrolled away. Says whether it did.
pub fn f50_append_original_error(messages: &mut Vec<IncomingMessage>) -> (r: bool)
    ensures
        match with_error_copy(message_views(old(messages)@)) {
            Some(after) => r && message_views(final(messages)@) == after,
            None => !r && final(messages)@ == old(messages)@,
        },
{
    broadcast use lemma_message_views_push;

    let ghost mv = message_views(messages@);
    let mut i: usize = 0;
    while i < messages.len() && !(same(messages[i].role.as_str(), "tool")
        && f28_text_looks_like_error(messages[i].content.text.as_str()))
        invariant
            i <= messages@.len(),
            messages == old(messages),
            mv == message_views(messages@),
            first_error(mv, 0) == first_error(mv, i as int),
        decreases messages@.len() - i,
    {
        assert(mv[i as int] == messages@[i as int]@);
        i += 1;
    }
    if i == messages.len() {
        return false;
    }
    assert(mv[i as int] == messages@[i as int]@);
    if messages.len() - (i + 1) < 2 {
        return false;
    }
    let last = messages.len() - 1;
    assert(mv.last() == messages@[last as int]@);
    if same(messages[last].role.as_str(), "tool") && begins(
        messages[last].content.text.as_str(),
        "[atlas-original-error]",
    ) {
        return false;
    }
    let id = match find_anchor(messages.as_slice()) {
        Some((_at, id)) => id,
        None => return false,
    };
    let original = trim_chars(&chars_of(messages[i].content.text.as_str()), CharSet::White);
    let mut text = "[atlas-original-error] You have lost focus on the ORIGINAL error that prompted this work. Re-read it carefully — it likely cites a specific file, line, or symbol that needs to change:\n\n----- BEGIN ORIGINAL ERROR -----\n".to_owned();
    text.append(string_of_all(&original).as_str());
    text.append("\n----- END ORIGINAL ERROR -----\n\nAddress THAT error specifically (the file/line it cites), not a generic syntax issue. If you cannot resolve it, reply to the user in plain text describing what is blocking.");
    messages.push(IncomingMessage::synthetic_tool(text, id));
    true
}

/// The original error is repeated once: a copy at the end is not followed by
/// another.
pub proof fn law_error_copied_once(msgs: Seq<MessageView>)
    requires
        with_error_copy(msgs) is Some,
    ensures
        with_error_copy(with_error_copy(msgs)->0) is None,
{
    let after = with_error_copy(msgs)->0;
    let p = "[atlas-original-error]"@;
    reveal_strlit("[atlas-original-error]");
    reveal_strlit("[atlas-original-error] You have lost focus on the ORIGINAL error that prompted this work. Re-read it carefully — it likely cites a specific file, line, or symbol that needs to change:\n\n----- BEGIN ORIGINAL ERROR -----\n");
    let text = error_copy_text(msgs[first_error(msgs, 0)->0].text);
    assert("[atlas-original-error] You have lost focus on the ORIGINAL error that prompted this work. Re-read it carefully — it likely cites a specific file, line, or symbol that needs to change:\n\n----- BEGIN ORIGINAL ERROR -----\n"@.subrange(0, p.len() as int) =~= p);
    assert(text.subrange(0, p.len() as int) =~= p);
    assert(after.last().text == text);
    assert(starts_with(text, p));
}

} // verus!

//! What goes into the chat template, and what its output says of thinking.
use vstd::prelude::*;
use crate::chat::entries::MsgEntry;
use crate::chat::entries::{entry_views, EntryView};
use crate::chat_blocking::{last_token, law_split_is_the_last_end};
use crate::json::{array, copy_values, no_members, no_values, object, push_member, push_value, Json};
use crate::json::{
    json_views, key_at, lemma_message_keys, member_of, member_views, JsonView,
};

verus! {

/// The content of an entry: its text, or a list of its images and its text.
pub open spec fn content_json(e: EntryView) -> JsonView {
    if e.image_count > 0 {
        JsonView::Array(
            Seq::new(e.image_count as nat, |i: int| image_json()) + if e.content.len() > 0 {
                seq![
                    JsonView::Object(
                        seq![
                            ("type"@, JsonView::Str("text"@)),
                            ("text"@, JsonView::Str(e.content)),
                        ],
                    ),
                ]
            } else {
                Seq::empty()
            },
        )
    } else {
        JsonView::Str(e.content)
    }
}

/// The place of an image.
pub open spec fn image_json() -> JsonView {
    JsonView::Object(seq![("type"@, JsonView::Str("image"@))])
}

/// An entry as the template takes it.
pub open spec fn entry_json(e: EntryView) -> JsonView {
    JsonView::Object(
        seq![("role"@, JsonView::Str(e.role)), ("content"@, content_json(e))] + match e.tool_calls {
            Some(calls) => seq![("tool_calls"@, JsonView::Array(calls))],
            None => Seq::empty(),
        },
    )
}

/// Computes [`content_json`].
fn json_content(e: &MsgEntry) -> (r: Json)
    ensures
        r@ == content_json(e@),
{
    if e.image_count == 0 {
        return Json::text(e.content.as_str());
    }
    let mut items = no_values();
    let mut i: usize = 0;
    let ghost want = Seq::new(e.image_count as nat, |k: int| image_json());
    assert(json_views(items@) =~= want.take(0));
    while i < e.image_count
        invariant
            i <= e.image_count,
            want == Seq::new(e.image_count as nat, |k: int| image_json()),
            json_views(items@) == want.take(i as int),
        decreases e.image_count - i,
    {
        let mut o = no_members();
        push_member(&mut o, "type", Json::text("image"));
        assert(member_views(o@) =~= seq![("type"@, JsonView::Str("image"@))]);
        push_value(&mut items, object(o));
        i += 1;
        assert(json_views(items@) =~= want.take(i as int));
    }
    assert(want.take(i as int) =~= want);
    if !e.content.as_str().is_empty() {
        let mut o = no_members();
        push_member(&mut o, "type", Json::text("text"));
        push_member(&mut o, "text", Json::text(e.content.as_str()));
        assert(member_views(o@) =~= seq![
            ("type"@, JsonView::Str("text"@)),
            ("text"@, JsonView::Str(e@.content)),
        ]);
        push_value(&mut items, object(o));
    }
    proof {
        let want_all = content_json(e@)->Array_0;
        assert(json_views(items@) =~= want_all);
    }
    array(items)
}

/// Computes [`entry_json`].
fn json_entry(e: &MsgEntry) -> (r: Json)
    ensures
        r@ == entry_json(e@),
{
    let mut o = no_members();
    push_member(&mut o, "role", Json::text(e.role.as_str()));
    push_member(&mut o, "content", json_content(e));
    match &e.tool_calls {
        Some(calls) => {
            push_member(&mut o, "tool_calls", array(copy_values(calls)));
        },
        None => {},
    }
    proof {
        let want = entry_json(e@)->Object_0;
        assert(member_views(o@) =~= want);
    }
    object(o)
}

/// The entries as the template takes them.
pub fn json_messages(entries: &Vec<MsgEntry>) -> (r: Vec<Json>)
    ensures
        json_views(r@) == entry_views(entries@).map_values(|e: EntryView| entry_json(e)),
{
    let ghost ev = entry_views(entries@);
    let ghost want = ev.map_values(|e: EntryView| entry_json(e));
    let mut out = no_values();
    let mut i: usize = 0;
    assert(json_views(out@) =~= want.take(0));
    while i < entries.len()
        invariant
            i <= entries@.len(),
            ev == entry_views(entries@),
            want == ev.map_values(|e: EntryView| entry_json(e)),
            json_views(out@) == want.take(i as int),
        decreases entries@.len() - i,
    {
        assert(ev[i as int] == entries@[i as int]@);
        push_value(&mut out, json_entry(&entries[i]));
        i += 1;
        assert(json_views(out@) =~= want.take(i as int));
    }
    assert(want.take(i as int) =~= want);
    out
}

/// Whether some image takes more than one token.
pub fn needs_expansion(pad_counts: &Vec<usize>) -> (r: bool)
    ensures
        r == exists|i: int| 0 <= i < pad_counts@.len() && #[trigger] pad_counts@[i] > 1,
{
    let mut i: usize = 0;
    while i < pad_counts.len()
        invariant
            i <= pad_counts@.len(),
            forall|j: int| 0 <= j < i ==> #[trigger] pad_counts@[j] <= 1,
        decreases pad_counts@.len() - i,
    {
        if pad_counts[i] > 1 {
            return true;
        }
        i += 1;
    }
    false
}

/// How many tokens at the end of a prompt are looked at for an open thinking
/// block.
pub const THINK_TAIL: usize = 8;

/// The end of a prompt.
pub open spec fn prompt_tail(tokens: Seq<u32>) -> Seq<u32> {
    if tokens.len() > THINK_TAIL {
        tokens.skip(tokens.len() - THINK_TAIL)
    } else {
        tokens
    }
}

/// Whether the end of a prompt opens a thinking block and does not close it.
pub open spec fn opens_thinking(tokens: Seq<u32>, start: Option<u32>, end: Option<u32>) -> bool {
    let tail = prompt_tail(tokens);
    match start {
        Some(s) => match last_token(tail, s, tail.len()) {
            Some(i) => match end {
                Some(e) => forall|j: int| i < j < tail.len() ==> #[trigger] tail[j] != e,
                None => true,
            },
            None => false,
        },
        None => false,
    }
}

/// Decides [`opens_thinking`].
fn thinking_opened(tokens: &Vec<u32>, start: Option<u32>, end: Option<u32>) -> (r: bool)
    ensures
        r == opens_thinking(tokens@, start, end),
{
    let s = match start {
        Some(s) => s,
        None => return false,
    };
    let ghost tail = prompt_tail(tokens@);
    let from: usize = if tokens.len() > THINK_TAIL {
        tokens.len() - THINK_TAIL
    } else {
        0
    };
    assert(tail =~= tokens@.skip(from as int));
    let mut i: usize = tokens.len();
    let mut closed = false;
    while i > from
        invariant
            from <= i <= tokens@.len(),
            tail == tokens@.skip(from as int),
            tail == prompt_tail(tokens@),
            start == Some(s),
            last_token(tail, s, tail.len()) == last_token(tail, s, (i - from) as nat),
            closed == (end matches Some(e) && exists|j: int|
                i - from <= j < tail.len() && #[trigger] tail[j] == e),
        decreases i,
    {
        assert(tail[i - 1 - from] == tokens@[i - 1]);
        if tokens[i - 1] == s {
            proof {
                let at = i - 1 - from;
                assert(last_token(tail, s, tail.len()) == Some(at));
                match end {
                    Some(e) => {
                        if closed {
                            let j = choose|j: int|
                                i - from <= j < tail.len() && #[trigger] tail[j] == e;
                            assert(at < j < tail.len() && tail[j] == e);
                        }
                    },
                    None => {},
                }
            }
            return !closed;
        }
        match end {
            Some(e) => {
                if tokens[i - 1] == e {
                    closed = true;
                }
            },
            None => {},
        }
        i -= 1;
    }
    false
}

/// Whether to think, and for how many tokens, once the prompt is known: a
/// prompt that opens a thinking block makes the model think.
pub fn template_thinking(
    tokens: &Vec<u32>,
    think_start: Option<u32>,
    think_end: Option<u32>,
    enable_thinking: bool,
    thinking_budget: Option<u32>,
    max_thinking_budget: u32,
) -> (r: (bool, Option<u32>))
    ensures
        r == if opens_thinking(tokens@, think_start, think_end) && !enable_thinking {
            (true, Some(max_thinking_budget))
        } else {
            (enable_thinking, thinking_budget)
        },
{
    if thinking_opened(tokens, think_start, think_end) && !enable_thinking {
        (true, Some(max_thinking_budget))
    } else {
        (enable_thinking, thinking_budget)
    }
}

// ---------------------------------------------------------------------------
// Laws
// ---------------------------------------------------------------------------
/// The template is shown each entry as it is: its role, its text, a place for
/// each of its images before the text, and its calls.
pub proof fn law_template_shows_the_entry(e: EntryView)
    requires
        e.image_count >= 0,
    ensures
        ({
            let j = entry_json(e);
            &&& member_of(j, "role"@) == Some(JsonView::Str(e.role))
            &&& e.image_count == 0 ==> member_of(j, "content"@) == Some(JsonView::Str(e.content))
            &&& e.image_count > 0 ==> {
                &&& member_of(j, "content"@) matches Some(JsonView::Array(a))
                &&& a.len() == e.image_count + if e.content.len() > 0 {
                    1int
                } else {
                    0
                }
                &&& forall|i: int|
                    0 <= i < e.image_count ==> member_of(#[trigger] a[i], "type"@) == Some(
                        JsonView::Str("image"@),
                    )
                &&& e.content.len() > 0 ==> member_of(a.last(), "type"@) == Some(
                    JsonView::Str("text"@),
                ) && member_of(a.last(), "text"@) == Some(JsonView::Str(e.content))
            }
            &&& match e.tool_calls {
                Some(calls) => member_of(j, "tool_calls"@) == Some(JsonView::Array(calls)),
                None => member_of(j, "tool_calls"@) is None,
            }
        }),
{
    lemma_message_keys();
    reveal_with_fuel(key_at, 4);
    let o = entry_json(e)->Object_0;
    assert(o[0] == ("role"@, JsonView::Str(e.role)));
    assert(o[1] == ("content"@, content_json(e)));
    if let Some(calls) = e.tool_calls {
        assert(o[2] == ("tool_calls"@, JsonView::Array(calls)));
    }
}

/// A prompt opens a thinking block exactly where a start of thinking stands
/// among its last tokens with no end behind it.
pub proof fn law_open_thinking_is_seen(tokens: Seq<u32>, start: u32, end: u32)
    ensures
        tokens.len() > 0 && tokens.last() == start && start != end ==> opens_thinking(
            tokens,
            Some(start),
            Some(end),
        ),
        tokens.len() > 0 && tokens.last() == end && start != end ==> !opens_thinking(
            tokens,
            Some(start),
            Some(end),
        ),
        (forall|i: int| 0 <= i < tokens.len() ==> #[trigger] tokens[i] != start)
            ==> !opens_thinking(tokens, Some(start), Some(end)),
        !opens_thinking(tokens, None, Some(end)),
{
    let tail = prompt_tail(tokens);
    law_split_is_the_last_end(tail, start);
    if tokens.len() > 0 {
        assert(tail[tail.len() - 1] == tokens.last());
    }
    if forall|i: int| 0 <= i < tokens.len() ==> #[trigger] tokens[i] != start {
        assert forall|j: int| 0 <= j < tail.len() implies #[trigger] tail[j] != start by {
            assert(tail[j] == tokens[tokens.len() - tail.len() + j]);
        }
    }
}

} // verus!

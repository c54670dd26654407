//! Reading the parts of a completion from JSON.
use vstd::prelude::*;
use crate::json::Json;
use crate::json::{
    get, json_views, lemma_json_views, member_of, str_of, unsigned_of, JsonView, NumberView,
};
use crate::openai::chat_response::{CompletionTokensDetails, PromptTokensDetails};
use crate::openai::types::{Annotation, UrlCitation};
use crate::openai::types::{annotation_views, CitationView};
use crate::text::same;
use crate::tools::{IncomingFunction, IncomingToolCall};
use crate::tools::CallView;
use crate::messages::incoming_views;

verus! {

/// A field of a structure of `n` fields: the member of an object, or the `i`th
/// element of an array that holds them all.
pub open spec fn field_in(j: JsonView, key: Seq<char>, i: int, n: int) -> Option<JsonView> {
    match j {
        JsonView::Object(o) => get(o, key),
        JsonView::Array(a) => if a.len() == n {
            Some(a[i])
        } else {
            None
        },
        _ => None,
    }
}

/// A field that is a count.
pub open spec fn count_in(j: JsonView, key: Seq<char>, i: int, n: int) -> Option<usize> {
    match field_in(j, key, i, n) {
        Some(v) => match unsigned_of(v) {
            Some(c) => if c <= usize::MAX {
                Some(c as usize)
            } else {
                None
            },
            None => None,
        },
        None => None,
    }
}

/// Computes [`count_in`].
fn read_count(j: &Json, key: &str, i: usize, n: usize) -> (r: Option<usize>)
    requires
        i < n,
    ensures
        r == count_in(j@, key@, i as int, n as int),
{
    let found: Option<&Json> = match j {
        Json::Object(o) => crate::json::lookup(o, key),
        Json::Array(a) => {
            proof {
                lemma_json_views(a@);
            }
            if a.len() == n {
                Some(&a[i])
            } else {
                None
            }
        },
        _ => None,
    };
    match found {
        Some(v) => match v.as_u64() {
            Some(c) => {
                if c <= usize::MAX as u64 {
                    Some(c as usize)
                } else {
                    None
                }
            },
            None => None,
        },
        None => None,
    }
}

/// The details of a prompt's tokens, where all are there.
pub open spec fn prompt_details_in(j: JsonView) -> Option<PromptTokensDetails> {
    match (count_in(j, "cached_tokens"@, 0, 2), count_in(j, "audio_tokens"@, 1, 2)) {
        (Some(cached_tokens), Some(audio_tokens)) => Some(
            PromptTokensDetails { cached_tokens, audio_tokens },
        ),
        _ => None,
    }
}

/// Computes [`prompt_details_in`].
pub fn read_prompt_details(j: &Json) -> (r: Option<PromptTokensDetails>)
    ensures
        r == prompt_details_in(j@),
{
    match (read_count(j, "cached_tokens", 0, 2), read_count(j, "audio_tokens", 1, 2)) {
        (Some(cached_tokens), Some(audio_tokens)) => Some(
            PromptTokensDetails { cached_tokens, audio_tokens },
        ),
        _ => None,
    }
}

/// The details of a completion's tokens, where all are there.
pub open spec fn completion_details_in(j: JsonView) -> Option<CompletionTokensDetails> {
    match (
        count_in(j, "reasoning_tokens"@, 0, 4),
        count_in(j, "audio_tokens"@, 1, 4),
        count_in(j, "accepted_prediction_tokens"@, 2, 4),
        count_in(j, "rejected_prediction_tokens"@, 3, 4),
    ) {
        (Some(reasoning), Some(audio), Some(accepted), Some(rejected)) => Some(
            CompletionTokensDetails {
                reasoning_tokens: reasoning,
                audio_tokens: audio,
                accepted_prediction_tokens: accepted,
                rejected_prediction_tokens: rejected,
            },
        ),
        _ => None,
    }
}

/// Computes [`completion_details_in`].
pub fn read_completion_details(j: &Json) -> (r: Option<CompletionTokensDetails>)
    ensures
        r == completion_details_in(j@),
{
    match (
        read_count(j, "reasoning_tokens", 0, 4),
        read_count(j, "audio_tokens", 1, 4),
        read_count(j, "accepted_prediction_tokens", 2, 4),
        read_count(j, "rejected_prediction_tokens", 3, 4),
    ) {
        (Some(reasoning), Some(audio), Some(accepted), Some(rejected)) => Some(
            CompletionTokensDetails {
                reasoning_tokens: reasoning,
                audio_tokens: audio,
                accepted_prediction_tokens: accepted,
                rejected_prediction_tokens: rejected,
            },
        ),
        _ => None,
    }
}

/// A member that is a text.
pub open spec fn text_in(j: JsonView, key: Seq<char>) -> Option<Seq<char>> {
    match member_of(j, key) {
        Some(v) => str_of(v),
        None => None,
    }
}

/// Computes [`text_in`].
fn read_text(j: &Json, key: &str) -> (r: Option<String>)
    ensures
        match r {
            Some(s) => text_in(j@, key@) == Some(s@),
            None => text_in(j@, key@) is None,
        },
{
    match j.get(key) {
        Some(v) => match v.as_str() {
            Some(s) => Some(s.clone()),
            None => None,
        },
        None => None,
    }
}

/// The citation that an annotation holds: its type says that it is one, and
/// all its fields are there.
pub open spec fn annotation_in(j: JsonView) -> Option<CitationView> {
    if text_in(j, "type"@) != Some("url_citation"@) {
        None
    } else {
        match member_of(j, "url_citation"@) {
            Some(c) => match (
                count_in(c, "start_index"@, 0, 4),
                count_in(c, "end_index"@, 1, 4),
                text_in(c, "url"@),
                text_in(c, "title"@),
            ) {
                (Some(start_index), Some(end_index), Some(url), Some(title)) => Some(
                    CitationView { start_index, end_index, url, title },
                ),
                _ => None,
            },
            None => None,
        }
    }
}

/// Computes [`annotation_in`].
fn read_annotation(j: &Json) -> (r: Option<Annotation>)
    ensures
        match r {
            Some(a) => annotation_in(j@) == Some(a@),
            None => annotation_in(j@) is None,
        },
{
    match read_text(j, "type") {
        Some(t) => {
            if !same(t.as_str(), "url_citation") {
                return None;
            }
        },
        None => return None,
    }
    let c = match j.get("url_citation") {
        Some(c) => c,
        None => return None,
    };
    match (
        read_count(c, "start_index", 0, 4),
        read_count(c, "end_index", 1, 4),
        read_text(c, "url"),
        read_text(c, "title"),
    ) {
        (Some(start_index), Some(end_index), Some(url), Some(title)) => Some(
            Annotation::UrlCitation {
                url_citation: UrlCitation { start_index, end_index, url, title },
            },
        ),
        _ => None,
    }
}

/// The annotations of a list, where all can be read.
pub open spec fn annotations_of(a: Seq<JsonView>) -> Option<Seq<CitationView>>
    decreases a.len(),
{
    if a.len() == 0 {
        Some(Seq::empty())
    } else {
        match (annotations_of(a.drop_last()), annotation_in(a.last())) {
            (Some(before), Some(c)) => Some(before.push(c)),
            _ => None,
        }
    }
}

/// The annotations that a message holds under `annotations`.
pub open spec fn annotations_in(msg: JsonView) -> Option<Seq<CitationView>> {
    match member_of(msg, "annotations"@) {
        Some(JsonView::Array(a)) => annotations_of(a),
        _ => None,
    }
}

proof fn lemma_annotations_prefix(a: Seq<JsonView>, i: int)
    requires
        0 <= i <= a.len(),
        annotations_of(a.take(i)) is None,
    ensures
        annotations_of(a) is None,
    decreases a.len(),
{
    if i < a.len() {
        assert(a.drop_last().take(i) =~= a.take(i));
        lemma_annotations_prefix(a.drop_last(), i);
    } else {
        assert(a.take(i) =~= a);
    }
}

/// Computes [`annotations_in`].
pub fn read_annotations(msg: &Json) -> (r: Option<Vec<Annotation>>)
    ensures
        match r {
            Some(v) => annotations_in(msg@) == Some(annotation_views(v@)),
            None => annotations_in(msg@) is None,
        },
{
    let list = match msg.get("annotations") {
        Some(v) => match v.as_array() {
            Some(a) => a,
            None => return None,
        },
        None => return None,
    };
    let ghost lv = json_views(list@);
    let mut out: Vec<Annotation> = Vec::new();
    let mut i: usize = 0;
    proof {
        lemma_json_views(list@);
        assert(lv.take(0) =~= Seq::<JsonView>::empty());
        assert(annotation_views(out@) =~= Seq::<CitationView>::empty());
    }
    while i < list.len()
        invariant
            i <= list@.len(),
            lv == json_views(list@),
            lv.len() == list@.len(),
            forall|k: int| 0 <= k < list@.len() ==> lv[k] == (#[trigger] list@[k])@,
            annotations_in(msg@) == annotations_of(lv),
            annotations_of(lv.take(i as int)) == Some(annotation_views(out@)),
        decreases list@.len() - i,
    {
        proof {
            assert(lv.take(i + 1).drop_last() =~= lv.take(i as int));
            assert(lv[i as int] == list@[i as int]@);
        }
        match read_annotation(&list[i]) {
            Some(a) => {
                let ghost before = out@;
                out.push(a);
                assert(annotation_views(out@) =~= annotation_views(before).push(a@));
            },
            None => {
                proof {
                    lemma_annotations_prefix(lv, i + 1);
                }
                return None;
            },
        }
        i += 1;
    }
    assert(lv.take(i as int) =~= lv);
    Some(out)
}

/// A tool call of a message: its function has a name; the identifier may be
/// absent or `null`, the arguments absent.
pub open spec fn call_in(j: JsonView) -> Option<CallView> {
    let id = match member_of(j, "id"@) {
        None | Some(JsonView::Null) => Some(None),
        Some(JsonView::Str(s)) => Some(Some(s)),
        _ => None,
    };
    match (id, member_of(j, "function"@)) {
        (Some(id), Some(f)) => {
            let arguments = match member_of(f, "arguments"@) {
                None => Some(Seq::<char>::empty()),
                Some(v) => str_of(v),
            };
            match (text_in(f, "name"@), arguments) {
                (Some(name), Some(arguments)) => Some(CallView { id, name, arguments }),
                _ => None,
            }
        },
        _ => None,
    }
}

/// Computes [`call_in`].
fn read_call(j: &Json) -> (r: Option<IncomingToolCall>)
    ensures
        match r {
            Some(c) => call_in(j@) == Some(c@),
            None => call_in(j@) is None,
        },
{
    let id: Option<String> = match j.get("id") {
        None => None,
        Some(Json::Null) => None,
        Some(Json::Str(s)) => Some(s.clone()),
        Some(_) => return None,
    };
    let f = match j.get("function") {
        Some(f) => f,
        None => return None,
    };
    let arguments = match f.get("arguments") {
        None => String::new(),
        Some(v) => match v.as_str() {
            Some(s) => s.clone(),
            None => return None,
        },
    };
    match read_text(f, "name") {
        Some(name) => Some(IncomingToolCall { id, function: IncomingFunction { name, arguments } }),
        None => None,
    }
}

/// The tool calls of a list, where all can be read.
pub open spec fn calls_of(a: Seq<JsonView>) -> Option<Seq<CallView>>
    decreases a.len(),
{
    if a.len() == 0 {
        Some(Seq::empty())
    } else {
        match (calls_of(a.drop_last()), call_in(a.last())) {
            (Some(before), Some(c)) => Some(before.push(c)),
            _ => None,
        }
    }
}

/// The tool calls that a message holds under `tool_calls`.
pub open spec fn calls_in(msg: JsonView) -> Option<Seq<CallView>> {
    match member_of(msg, "tool_calls"@) {
        Some(JsonView::Array(a)) => calls_of(a),
        _ => None,
    }
}

proof fn lemma_calls_prefix(a: Seq<JsonView>, i: int)
    requires
        0 <= i <= a.len(),
        calls_of(a.take(i)) is None,
    ensures
        calls_of(a) is None,
    decreases a.len(),
{
    if i < a.len() {
        assert(a.drop_last().take(i) =~= a.take(i));
        lemma_calls_prefix(a.drop_last(), i);
    } else {
        assert(a.take(i) =~= a);
    }
}

/// Computes [`calls_in`].
pub fn read_calls(msg: &Json) -> (r: Option<Vec<IncomingToolCall>>)
    ensures
        match r {
            Some(v) => calls_in(msg@) == Some(incoming_views(v@)),
            None => calls_in(msg@) is None,
        },
{
    let list = match msg.get("tool_calls") {
        Some(v) => match v.as_array() {
            Some(a) => a,
            None => return None,
        },
        None => return None,
    };
    let ghost lv = json_views(list@);
    let mut out: Vec<IncomingToolCall> = Vec::new();
    let mut i: usize = 0;
    proof {
        lemma_json_views(list@);
        assert(lv.take(0) =~= Seq::<JsonView>::empty());
        assert(incoming_views(out@) =~= Seq::<CallView>::empty());
    }
    while i < list.len()
        invariant
            i <= list@.len(),
            lv == json_views(list@),
            lv.len() == list@.len(),
            forall|k: int| 0 <= k < list@.len() ==> lv[k] == (#[trigger] list@[k])@,
            calls_in(msg@) == calls_of(lv),
            calls_of(lv.take(i as int)) == Some(incoming_views(out@)),
        decreases list@.len() - i,
    {
        proof {
            assert(lv.take(i + 1).drop_last() =~= lv.take(i as int));
            assert(lv[i as int] == list@[i as int]@);
        }
        match read_call(&list[i]) {
            Some(c) => {
                let ghost before = out@;
                out.push(c);
                assert(incoming_views(out@) =~= incoming_views(before).push(c@));
            },
            None => {
                proof {
                    lemma_calls_prefix(lv, i + 1);
                }
                return None;
            },
        }
        i += 1;
    }
    assert(lv.take(i as int) =~= lv);
    Some(out)
}

// ---------------------------------------------------------------------------
// Laws
// ---------------------------------------------------------------------------
/// The details of tokens are read under their names, where all of them are
/// there as counts; a lack makes them unreadable.
pub proof fn law_details_are_read(o: Seq<(Seq<char>, JsonView)>, a: u64, b: u64, c: u64, d: u64)
    requires
        a <= usize::MAX && b <= usize::MAX && c <= usize::MAX && d <= usize::MAX,
    ensures
        get(o, "cached_tokens"@) == Some(JsonView::Number(NumberView::Unsigned(a))) && get(
            o,
            "audio_tokens"@,
        ) == Some(JsonView::Number(NumberView::Unsigned(b))) ==> (prompt_details_in(
            JsonView::Object(o),
        ) matches Some(x) && x.cached_tokens == a && x.audio_tokens == b),
        get(o, "cached_tokens"@) is None ==> prompt_details_in(JsonView::Object(o)) is None,
        get(o, "reasoning_tokens"@) == Some(JsonView::Number(NumberView::Unsigned(a))) && get(
            o,
            "audio_tokens"@,
        ) == Some(JsonView::Number(NumberView::Unsigned(b))) && get(
            o,
            "accepted_prediction_tokens"@,
        ) == Some(JsonView::Number(NumberView::Unsigned(c))) && get(
            o,
            "rejected_prediction_tokens"@,
        ) == Some(JsonView::Number(NumberView::Unsigned(d))) ==> (completion_details_in(
            JsonView::Object(o),
        ) matches Some(x) && x.reasoning_tokens == a && x.audio_tokens == b
            && x.accepted_prediction_tokens == c && x.rejected_prediction_tokens == d),
        get(o, "reasoning_tokens"@) is None ==> completion_details_in(JsonView::Object(o)) is None,
{
}

proof fn lemma_annotations(a: Seq<JsonView>, i: int)
    requires
        annotations_of(a) is Some,
        0 <= i < a.len(),
    ensures
        annotations_of(a)->0.len() == a.len(),
        annotation_in(a[i]) == Some(annotations_of(a)->0[i]),
    decreases a.len(),
{
    let less = a.drop_last();
    if i < less.len() {
        lemma_annotations(less, i);
        assert(less[i] == a[i]);
    } else if less.len() > 0 {
        lemma_annotations(less, 0);
    }
}

/// Annotations are read one for one: each citation with its place, its address
/// and its title.
pub proof fn law_annotations_are_read(
    msg: JsonView,
    a: Seq<JsonView>,
    i: int,
    o: Seq<(Seq<char>, JsonView)>,
    from: u64,
    to: u64,
    url: Seq<char>,
    title: Seq<char>,
)
    requires
        member_of(msg, "annotations"@) == Some(JsonView::Array(a)),
        annotations_in(msg) is Some,
        0 <= i < a.len(),
        member_of(a[i], "url_citation"@) == Some(JsonView::Object(o)),
        get(o, "start_index"@) == Some(JsonView::Number(NumberView::Unsigned(from))),
        get(o, "end_index"@) == Some(JsonView::Number(NumberView::Unsigned(to))),
        get(o, "url"@) == Some(JsonView::Str(url)),
        get(o, "title"@) == Some(JsonView::Str(title)),
    ensures
        annotations_in(msg)->0.len() == a.len(),
        annotations_in(msg)->0[i].start_index == from,
        annotations_in(msg)->0[i].end_index == to,
        annotations_in(msg)->0[i].url == url,
        annotations_in(msg)->0[i].title == title,
{
    lemma_annotations(a, i);
}

/// A message has annotations where it has a list of them of which each is one.
pub proof fn law_whole_annotations_are_read(msg: JsonView, a: Seq<JsonView>)
    requires
        member_of(msg, "annotations"@) == Some(JsonView::Array(a)),
        forall|i: int| 0 <= i < a.len() ==> annotation_in(#[trigger] a[i]) is Some,
    ensures
        annotations_in(msg) is Some,
{
    lemma_annotations_some(a);
}

proof fn lemma_annotations_some(a: Seq<JsonView>)
    requires
        forall|i: int| 0 <= i < a.len() ==> annotation_in(#[trigger] a[i]) is Some,
    ensures
        annotations_of(a) is Some,
    decreases a.len(),
{
    if a.len() > 0 {
        let less = a.drop_last();
        assert forall|i: int| 0 <= i < less.len() implies annotation_in(#[trigger] less[i]) is Some by {
            assert(less[i] == a[i]);
        }
        lemma_annotations_some(less);
        assert(annotation_in(a[a.len() - 1]) is Some);
    }
}

/// Calls are read one for one, each with the name and the arguments that its
/// function has and the identifier that it has.
pub proof fn law_calls_are_read(calls: Seq<JsonView>, i: int)
    requires
        calls_of(calls) is Some,
        0 <= i < calls.len(),
    ensures
        ({
            let c = calls_of(calls)->0;
            &&& c.len() == calls.len()
            &&& member_of(calls[i], "function"@) matches Some(f) && member_of(f, "name"@) == Some(
                JsonView::Str(c[i].name),
            ) && (member_of(f, "arguments"@) == Some(JsonView::Str(c[i].arguments)) || (member_of(
                f,
                "arguments"@,
            ) is None && c[i].arguments.len() == 0))
            &&& c[i].id matches Some(id) ==> member_of(calls[i], "id"@) == Some(JsonView::Str(id))
            &&& c[i].id is None ==> member_of(calls[i], "id"@) is None || member_of(
                calls[i],
                "id"@,
            ) == Some(JsonView::Null)
        }),
    decreases calls.len(),
{
    let less = calls.drop_last();
    if i < less.len() {
        law_calls_are_read(less, i);
        assert(less[i] == calls[i]);
    } else if less.len() > 0 {
        law_calls_are_read(less, 0);
    }
}

/// What is no citation is not read as one.
pub proof fn law_only_citations_are_read(j: JsonView)
    ensures
        text_in(j, "type"@) != Some("url_citation"@) ==> annotation_in(j) is None,
        member_of(j, "url_citation"@) is None ==> annotation_in(j) is None,
{
}

/// A call with a name is read, whether it has an identifier and arguments or
/// not; a list of such calls is read whole.
pub proof fn law_named_calls_are_read(j: JsonView, f: JsonView, name: Seq<char>, calls: Seq<JsonView>)
    ensures
        member_of(j, "function"@) == Some(f) && member_of(f, "name"@) == Some(JsonView::Str(name))
            && (member_of(f, "arguments"@) is None || member_of(f, "arguments"@)->0 is Str) && (
        member_of(j, "id"@) is None || member_of(j, "id"@)->0 is Str) ==> (call_in(
            j,
        ) matches Some(c) && c.name == name),
        (forall|i: int| 0 <= i < calls.len() ==> call_in(#[trigger] calls[i]) is Some) ==> (calls_of(
            calls,
        ) matches Some(l) && l.len() == calls.len()),
    decreases calls.len(),
{
    if calls.len() > 0 && (forall|i: int|
        0 <= i < calls.len() ==> call_in(#[trigger] calls[i]) is Some) {
        let less = calls.drop_last();
        assert forall|i: int| 0 <= i < less.len() implies call_in(#[trigger] less[i]) is Some by {
            assert(less[i] == calls[i]);
        }
        law_named_calls_are_read(j, f, name, less);
        assert(call_in(calls[calls.len() - 1]) is Some);
    }
}

} // verus!

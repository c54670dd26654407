//! Stored completions and responses.
use vstd::prelude::*;
use crate::api_error::{ApiError, BAD_REQUEST, NOT_FOUND};
use crate::api_error::{param_error, plain_error, ErrorView};
use crate::decimal::dec_u64;
use crate::decimal::dec;
use crate::json::{array, no_members, no_values, object, push_member, push_value, Json};
use crate::json::{json_views, key_at, lemma_message_keys, member_of, member_views, JsonView};
use crate::listing::{build_list, deleted_body, take_page, ListQuery};
use crate::listing::{deleted_json, lemma_listing_keys, list_body, page};
use crate::messages::IncomingMessage;
use crate::messages::{message_views, MessageView};
use crate::text::{own, same};
use crate::text::{contains, lemma_stands_between, views};

verus! {

/// The error of a completion that is not stored.
pub open spec fn completion_missing(id: Seq<char>) -> ErrorView {
    plain_error(
        NOT_FOUND,
        "Completion '"@ + id
            + "' not found. It may have expired, or was never stored (set `store: true` on the request to enable storage)."@,
    )
}

/// Computes [`completion_missing`].
fn completion_not_found(id: &str) -> (r: ApiError)
    ensures
        r@ == completion_missing(id@),
{
    let mut m = own("Completion '");
    m.append(id);
    m.append(
        "' not found. It may have expired, or was never stored (set `store: true` on the request to enable storage).",
    );
    ApiError::plain(NOT_FOUND, m)
}

/// The error of a response that is not stored, with the end of its message.
pub open spec fn response_missing(id: Seq<char>, rest: Seq<char>) -> ErrorView {
    param_error(
        NOT_FOUND,
        "Response '"@ + id + rest,
        "id"@,
        Some("response_not_found"@),
    )
}

/// The error of a response that is to be read and is not stored.
fn response_not_stored(id: &str) -> (r: ApiError)
    ensures
        r@ == response_missing(id@, "' not found. It may have expired or was not stored."@),
{
    let mut m = own("Response '");
    m.append(id);
    m.append("' not found. It may have expired or was not stored.");
    ApiError::at(NOT_FOUND, m, "id", Some("response_not_found"))
}

/// The error of a response that is to be deleted or inspected and is not
/// stored.
fn response_not_found(id: &str) -> (r: ApiError)
    ensures
        r@ == response_missing(id@, "' not found."@),
{
    let mut m = own("Response '");
    m.append(id);
    m.append("' not found.");
    ApiError::at(NOT_FOUND, m, "id", Some("response_not_found"))
}

/// The error of a response that is to be cancelled: it is complete.
pub fn cancel_response(id: &str) -> (r: ApiError)
    ensures
        r@ == param_error(
            BAD_REQUEST,
            "Response '"@ + id@
                + "' cannot be cancelled: Atlas completes responses synchronously. Cancel only applies when the request was created with `background: true`, which this server does not support."@,
            "id"@,
            Some("response_not_cancellable"@),
        ),
{
    let mut m = own("Response '");
    m.append(id);
    m.append(
        "' cannot be cancelled: Atlas completes responses synchronously. Cancel only applies when the request was created with `background: true`, which this server does not support.",
    );
    ApiError::at(BAD_REQUEST, m, "id", Some("response_not_cancellable"))
}

// ---------------------------------------------------------------------------
// Input items
// ---------------------------------------------------------------------------
/// A part of a message: of this type, with this member.
pub open spec fn part_json(kind: Seq<char>, key: Seq<char>, value: Seq<char>) -> JsonView {
    JsonView::Object(seq![("type"@, JsonView::Str(kind)), (key, JsonView::Str(value))])
}

/// Computes [`part_json`].
fn build_part(kind: &str, key: &str, value: &str) -> (r: Json)
    ensures
        r@ == part_json(kind@, key@, value@),
{
    let mut o = no_members();
    push_member(&mut o, "type", Json::text(kind));
    push_member(&mut o, key, Json::text(value));
    proof {
        let want = part_json(kind@, key@, value@)->Object_0;
        assert(member_views(o@) =~= want);
    }
    object(o)
}

/// The parts of a message: its text, and its images. A text that is empty is
/// left out where there are images.
pub open spec fn input_parts(m: MessageView) -> Seq<JsonView> {
    let text = seq![part_json("input_text"@, "text"@, m.text)];
    if m.images.len() == 0 {
        text
    } else {
        (if m.text.len() > 0 {
            text
        } else {
            Seq::empty()
        }) + m.images.map_values(|i: Seq<char>| part_json("input_image"@, "image_url"@, i))
    }
}

/// A message as an input item.
pub open spec fn input_item(response: Seq<char>, i: int, m: MessageView) -> JsonView {
    JsonView::Object(
        seq![
            ("id"@, JsonView::Str("item_"@ + response + "_"@ + dec(i as nat))),
            ("type"@, JsonView::Str("message"@)),
            ("role"@, JsonView::Str(m.role)),
            ("content"@, JsonView::Array(input_parts(m))),
        ],
    )
}

/// What the caller sent in: the transcript without the assistant's message at
/// its end.
pub open spec fn sent(msgs: Seq<MessageView>) -> Seq<MessageView> {
    if msgs.len() > 0 && msgs.last().role == "assistant"@ {
        msgs.drop_last()
    } else {
        msgs
    }
}

/// The input items of a transcript.
pub open spec fn input_items(response: Seq<char>, msgs: Seq<MessageView>) -> Seq<JsonView> {
    Seq::new(sent(msgs).len(), |i: int| input_item(response, i, sent(msgs)[i]))
}

/// Computes [`input_parts`].
fn build_parts(m: &IncomingMessage) -> (r: Vec<Json>)
    ensures
        json_views(r@) == input_parts(m@),
{
    let mut parts = no_values();
    let ghost imgs = views(m.content.images@);
    if m.content.images.len() == 0 || !m.content.text.as_str().is_empty() {
        push_value(&mut parts, build_part("input_text", "text", m.content.text.as_str()));
    }
    let ghost head = json_views(parts@);
    let ghost want = imgs.map_values(
        |i: Seq<char>| part_json("input_image"@, "image_url"@, i),
    );
    let mut i: usize = 0;
    assert(json_views(parts@) =~= head + want.take(0));
    while i < m.content.images.len()
        invariant
            i <= m.content.images@.len(),
            imgs == views(m.content.images@),
            want == imgs.map_values(
                |i: Seq<char>| part_json("input_image"@, "image_url"@, i),
            ),
            json_views(parts@) == head + want.take(i as int),
        decreases m.content.images@.len() - i,
    {
        assert(imgs[i as int] == m.content.images@[i as int]@);
        push_value(
            &mut parts,
            build_part("input_image", "image_url", m.content.images[i].as_str()),
        );
        i += 1;
        assert(json_views(parts@) =~= head + want.take(i as int));
    }
    assert(want.take(i as int) =~= want);
    assert(json_views(parts@) =~= input_parts(m@));
    parts
}

/// Computes [`input_item`].
fn build_item(response: &str, i: usize, m: &IncomingMessage) -> (r: Json)
    ensures
        r@ == input_item(response@, i as int, m@),
{
    let mut id = own("item_");
    id.append(response);
    id.append("_");
    id.append(dec_u64(i as u64).as_str());
    let mut o = no_members();
    push_member(&mut o, "id", Json::text(id.as_str()));
    push_member(&mut o, "type", Json::text("message"));
    push_member(&mut o, "role", Json::text(m.role.as_str()));
    push_member(&mut o, "content", array(build_parts(m)));
    proof {
        let want = input_item(response@, i as int, m@)->Object_0;
        assert(member_views(o@) =~= want);
    }
    object(o)
}

/// Computes [`input_items`].
fn build_items(response: &str, messages: &Vec<IncomingMessage>) -> (r: Vec<Json>)
    ensures
        json_views(r@) == input_items(response@, message_views(messages@)),
{
    let ghost mv = message_views(messages@);
    let ghost sv = sent(mv);
    let mut n: usize = messages.len();
    if n > 0 {
        assert(mv.last() == messages@[n - 1]@);
        if same(messages[n - 1].role.as_str(), "assistant") {
            n = n - 1;
        }
    }
    assert(n == sv.len());
    let ghost want = input_items(response@, mv);
    let mut items = no_values();
    let mut i: usize = 0;
    assert(json_views(items@) =~= want.take(0));
    while i < n
        invariant
            i <= n <= messages@.len(),
            mv == message_views(messages@),
            sv == sent(mv),
            n == sv.len(),
            want == input_items(response@, mv),
            json_views(items@) == want.take(i as int),
        decreases n - i,
    {
        assert(sv[i as int] == messages@[i as int]@);
        push_value(&mut items, build_item(response, i, &messages[i]));
        i += 1;
        assert(json_views(items@) =~= want.take(i as int));
    }
    assert(want.take(i as int) =~= want);
    items
}

/// Lists what was sent into a stored response, a page of it. Its messages are
/// there where it is stored.
pub fn list_response_input_items(
    id: &str,
    messages: Option<&Vec<IncomingMessage>>,
    q: &ListQuery,
) -> (r: Result<Json, ApiError>)
    ensures
        match messages {
            Some(m) => r matches Ok(j) && j@ == list_body(
                page(input_items(id@, message_views(m@)), q@),
            ),
            None => r matches Err(e) && e@ == response_missing(id@, "' not found."@),
        },
{
    match messages {
        Some(m) => Ok(build_list(take_page(&build_items(id, m), q))),
        None => Err(response_not_found(id)),
    }
}

/// A stored completion, where it is stored.
pub fn get_stored_completion(id: &str, stored: Option<Json>) -> (r: Result<Json, ApiError>)
    ensures
        match stored {
            Some(b) => r matches Ok(j) && j@ == b@,
            None => r matches Err(e) && e@ == completion_missing(id@),
        },
{
    match stored {
        Some(b) => Ok(b),
        None => Err(completion_not_found(id)),
    }
}

/// A stored response, where it is stored.
pub fn get_stored_response(id: &str, stored: Option<Json>) -> (r: Result<Json, ApiError>)
    ensures
        match stored {
            Some(b) => r matches Ok(j) && j@ == b@,
            None => r matches Err(e) && e@ == response_missing(
                id@,
                "' not found. It may have expired or was not stored."@,
            ),
        },
{
    match stored {
        Some(b) => Ok(b),
        None => Err(response_not_stored(id)),
    }
}

/// The answer to a request to delete a stored response, which was there or
/// not.
pub fn delete_stored_response(id: &str, existed: bool) -> (r: Result<Json, ApiError>)
    ensures
        if existed {
            r matches Ok(j) && j@ == deleted_json(id@, "response.deleted"@)
        } else {
            r matches Err(e) && e@ == response_missing(id@, "' not found."@)
        },
{
    if existed {
        Ok(deleted_body(id, "response.deleted"))
    } else {
        Err(response_not_found(id))
    }
}

/// What was sent into a response is listed, message by message: each with its
/// role, its text and its images, under an identifier of its own. The answer
/// itself is not.
pub proof fn law_input_items_are_what_was_sent(
    response: Seq<char>,
    msgs: Seq<MessageView>,
    i: int,
    k: int,
)
    requires
        0 <= i < msgs.len(),
        i < msgs.len() - 1 || msgs[i].role != "assistant"@,
    ensures
        ({
            let items = input_items(response, msgs);
            let m = msgs[i];
            let text = JsonView::Object(
                seq![("type"@, JsonView::Str("input_text"@)), ("text"@, JsonView::Str(m.text))],
            );
            &&& i < items.len() <= msgs.len()
            &&& member_of(items[i], "role"@) == Some(JsonView::Str(m.role))
            &&& member_of(items[i], "id"@) == Some(
                JsonView::Str("item_"@ + response + "_"@ + dec(i as nat)),
            )
            &&& member_of(items[i], "content"@) matches Some(JsonView::Array(parts)) && (
            m.text.len() > 0 ==> parts.contains(text)) && (0 <= k < m.images.len()
                ==> parts.contains(
                JsonView::Object(
                    seq![
                        ("type"@, JsonView::Str("input_image"@)),
                        ("image_url"@, JsonView::Str(m.images[k])),
                    ],
                ),
            )) && parts.len() <= 1 + m.images.len()
        }),
{
    let items = input_items(response, msgs);
    let m = msgs[i];
    lemma_message_keys();
    lemma_listing_keys();
    reveal_strlit("id");
    reveal_strlit("role");
    reveal_strlit("content");
    assert("id"@.len() == 2 && "role"@.len() == 4 && "content"@.len() == 7);
    reveal_with_fuel(key_at, 5);
    assert(items[i] == input_item(response, i, m));
    let parts = input_parts(m);
    let head: int = if m.images.len() == 0 || m.text.len() > 0 {
        1
    } else {
        0
    };
    if head == 1 {
        assert(parts[0] == part_json("input_text"@, "text"@, m.text));
    }
    if 0 <= k < m.images.len() {
        assert(parts[head + k] == part_json("input_image"@, "image_url"@, m.images[k]));
    }
}

/// The error of something that is not stored names it.
pub proof fn law_missing_names_what_was_asked_for(id: Seq<char>, rest: Seq<char>)
    ensures
        completion_missing(id).status == NOT_FOUND,
        contains(completion_missing(id).message, id),
        response_missing(id, rest).status == NOT_FOUND,
        contains(response_missing(id, rest).message, id),
        response_missing(id, rest).param == Some("id"@),
{
    lemma_stands_between("Response '"@, id, rest);
    lemma_stands_between(
        "Completion '"@,
        id,
        "' not found. It may have expired, or was never stored (set `store: true` on the request to enable storage)."@,
    );
}

} // verus!

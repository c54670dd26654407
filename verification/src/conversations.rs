//! Conversations that the server keeps.
use vstd::prelude::*;
use crate::api_error::{ApiError, BAD_REQUEST, NOT_FOUND};
use crate::api_error::{param_error, ErrorView};
use crate::decimal::dec_u64;
use crate::decimal::dec;
use crate::json::{array, no_members, object, push_member, Json};
use crate::json::{
    json_views, key_at, lemma_json_views, member_of, member_views, JsonView, Members, NumberView,
};
use crate::listing::{build_list, deleted_body, find_item, take_page, ListQuery};
use crate::listing::{
    deleted_json, item_at, lemma_listing_keys, list_body, page, QueryView,
};
use crate::responses::conversation_not_found;
use crate::responses::conversation_missing;
use crate::text::own;
use crate::text::{contains, lemma_stands_between};
use crate::tools::copy_opt;

verus! {

/// The most items that one request may add.
pub const MAX_ITEMS_PER_INSERT: usize = 20;

/// A request to begin a conversation.
#[derive(Debug)]
pub struct CreateConversationRequest {
    /// Its first items.
    pub items: Option<Vec<Json>>,
    /// What is kept beside them.
    pub metadata: Option<Vec<(String, String)>>,
}

/// A request to change what is kept beside a conversation.
#[derive(Debug)]
pub struct UpdateConversationRequest {
    /// What is to be kept.
    pub metadata: Vec<(String, String)>,
}

/// A request to add to a conversation.
#[derive(Debug)]
pub struct AddItemsRequest {
    /// The items.
    pub items: Vec<Json>,
}

/// A conversation as it is kept.
#[derive(Debug)]
pub struct ConversationSnapshot {
    pub id: String,
    pub created_at: u64,
    pub metadata: Vec<(String, String)>,
    pub items: Vec<Json>,
}

/// Pairs of texts as members.
pub open spec fn text_members(s: Seq<(String, String)>) -> Members {
    s.map_values(|m: (String, String)| (m.0@, JsonView::Str(m.1@)))
}

/// What a client sees of a conversation.
pub open spec fn conversation_json(s: ConversationSnapshot) -> JsonView {
    JsonView::Object(
        seq![
            ("id"@, JsonView::Str(s.id@)),
            ("object"@, JsonView::Str("conversation"@)),
            ("created_at"@, JsonView::Number(NumberView::Unsigned(s.created_at))),
            ("metadata"@, JsonView::Object(text_members(s.metadata@))),
        ],
    )
}

/// Computes [`conversation_json`].
pub fn conversation_body(snap: &ConversationSnapshot) -> (r: Json)
    ensures
        r@ == conversation_json(*snap),
{
    let ghost want = text_members(snap.metadata@);
    let mut meta = no_members();
    let mut i: usize = 0;
    assert(member_views(meta@) =~= want.take(0));
    while i < snap.metadata.len()
        invariant
            i <= snap.metadata@.len(),
            want == text_members(snap.metadata@),
            member_views(meta@) == want.take(i as int),
        decreases snap.metadata@.len() - i,
    {
        push_member(
            &mut meta,
            snap.metadata[i].0.as_str(),
            Json::text(snap.metadata[i].1.as_str()),
        );
        i += 1;
        assert(member_views(meta@) =~= want.take(i as int));
    }
    assert(want.take(i as int) =~= want);
    let mut o = no_members();
    push_member(&mut o, "id", Json::text(snap.id.as_str()));
    push_member(&mut o, "object", Json::text("conversation"));
    push_member(&mut o, "created_at", Json::number(snap.created_at));
    push_member(&mut o, "metadata", object(meta));
    proof {
        let all = conversation_json(*snap)->Object_0;
        assert(member_views(o@) =~= all);
    }
    object(o)
}

/// The error of a request with too many items.
pub open spec fn too_many(n: nat) -> ErrorView {
    param_error(
        BAD_REQUEST,
        "`items` exceeds per-call cap of "@ + dec(MAX_ITEMS_PER_INSERT as nat) + " (got "@ + dec(n)
            + ")."@,
        "items"@,
        Some("items_too_many"@),
    )
}

/// Computes [`too_many`].
pub fn too_many_items(n: usize) -> (r: ApiError)
    ensures
        r@ == too_many(n as nat),
{
    let mut m = own("`items` exceeds per-call cap of ");
    m.append(dec_u64(MAX_ITEMS_PER_INSERT as u64).as_str());
    m.append(" (got ");
    m.append(dec_u64(n as u64).as_str());
    m.append(").");
    ApiError::at(BAD_REQUEST, m, "items", Some("items_too_many"))
}

/// Takes a request to begin a conversation: what is to be kept, or the error
/// of too many items.
pub fn create_conversation(req: CreateConversationRequest) -> (r: Result<
    (Vec<Json>, Vec<(String, String)>),
    ApiError,
>)
    ensures
        ({
            let items = match req.items {
                Some(v) => v@,
                None => Seq::empty(),
            };
            match r {
                Ok((kept, metadata)) => items.len() <= MAX_ITEMS_PER_INSERT && kept@ == items
                    && metadata@ == match req.metadata {
                    Some(m) => m@,
                    None => Seq::empty(),
                },
                Err(e) => items.len() > MAX_ITEMS_PER_INSERT && e@ == too_many(items.len()),
            }
        }),
{
    let items = match req.items {
        Some(v) => v,
        None => Vec::new(),
    };
    if items.len() > MAX_ITEMS_PER_INSERT {
        return Err(too_many_items(items.len()));
    }
    let metadata = match req.metadata {
        Some(m) => m,
        None => Vec::new(),
    };
    Ok((items, metadata))
}

/// The answer about a conversation, where it is there.
pub fn get_conversation(id: &str, snap: Option<&ConversationSnapshot>) -> (r: Result<Json, ApiError>)
    ensures
        match snap {
            Some(s) => r matches Ok(j) && j@ == conversation_json(*s),
            None => r matches Err(e) && e@ == conversation_missing(id@, "id"@),
        },
{
    match snap {
        Some(s) => Ok(conversation_body(s)),
        None => Err(conversation_not_found(id, "id")),
    }
}

/// Why items were not added.
#[derive(Debug, Clone, Copy, PartialEq, Eq, Structural)]
pub enum AddItemsError {
    /// The conversation is not there.
    NotFound,
    /// There are this many, and that is too many.
    TooMany(usize),
}

/// The body that lists items that were added.
pub open spec fn added_json(items: Seq<JsonView>) -> JsonView {
    JsonView::Object(
        seq![("object"@, JsonView::Str("list"@)), ("data"@, JsonView::Array(items))],
    )
}

/// The answer to a request to add items.
pub fn add_conversation_items(id: &str, added: Result<Vec<Json>, AddItemsError>) -> (r: Result<
    Json,
    ApiError,
>)
    ensures
        match added {
            Ok(items) => r matches Ok(j) && j@ == added_json(json_views(items@)),
            Err(AddItemsError::NotFound) => r matches Err(e) && e@ == conversation_missing(
                id@,
                "id"@,
            ),
            Err(AddItemsError::TooMany(n)) => r matches Err(e) && e@ == too_many(n as nat),
        },
{
    match added {
        Ok(items) => {
            let ghost iv = json_views(items@);
            let mut o = no_members();
            push_member(&mut o, "object", Json::text("list"));
            push_member(&mut o, "data", array(items));
            proof {
                let want = added_json(iv)->Object_0;
                assert(member_views(o@) =~= want);
            }
            Ok(object(o))
        },
        Err(AddItemsError::NotFound) => Err(conversation_not_found(id, "id")),
        Err(AddItemsError::TooMany(n)) => Err(too_many_items(n)),
    }
}

/// What is asked for, but for the cursors.
pub open spec fn without_cursors(q: QueryView) -> QueryView {
    QueryView { after: None, before: None, ..q }
}

/// Lists the items of a conversation, a page of them. Cursors are not looked
/// at.
pub fn list_conversation_items(id: &str, items: Option<&Vec<Json>>, q: &ListQuery) -> (r: Result<
    Json,
    ApiError,
>)
    ensures
        match items {
            Some(v) => r matches Ok(j) && j@ == list_body(
                page(json_views(v@), without_cursors(q@)),
            ),
            None => r matches Err(e) && e@ == conversation_missing(id@, "id"@),
        },
{
    match items {
        Some(v) => {
            let plain = ListQuery {
                order: copy_opt(&q.order),
                limit: copy_opt(&q.limit),
                after: None,
                before: None,
            };
            Ok(build_list(take_page(v, &plain)))
        },
        None => Err(conversation_not_found(id, "id")),
    }
}

/// The error of an item that is not there.
pub open spec fn item_missing(id: Seq<char>, item: Seq<char>) -> ErrorView {
    param_error(
        NOT_FOUND,
        "Item '"@ + item + "' not found in conversation '"@ + id + "'."@,
        "item_id"@,
        Some("item_not_found"@),
    )
}

/// Computes [`item_missing`].
pub fn item_not_found(id: &str, item: &str) -> (r: ApiError)
    ensures
        r@ == item_missing(id@, item@),
{
    let mut m = own("Item '");
    m.append(item);
    m.append("' not found in conversation '");
    m.append(id);
    m.append("'.");
    ApiError::at(NOT_FOUND, m, "item_id", Some("item_not_found"))
}

/// The answer about an item of a conversation.
pub fn get_conversation_item(id: &str, item: &str, items: Option<&Vec<Json>>) -> (r: Result<
    Json,
    ApiError,
>)
    ensures
        match items {
            Some(v) => match item_at(json_views(v@), item@, 0) {
                Some(i) => r matches Ok(j) && j@ == json_views(v@)[i],
                None => r matches Err(e) && e@ == item_missing(id@, item@),
            },
            None => r matches Err(e) && e@ == conversation_missing(id@, "id"@),
        },
{
    match items {
        Some(v) => match find_item(v, item) {
            Some(i) => {
                proof {
                    lemma_json_views(v@);
                    assert(json_views(v@)[i as int] == v@[i as int]@);
                }
                Ok(v[i].copy())
            },
            None => Err(item_not_found(id, item)),
        },
        None => Err(conversation_not_found(id, "id")),
    }
}

/// The answer to a request to change what is kept beside a conversation, which
/// is there afterwards or not.
pub fn update_conversation(id: &str, updated: Option<&ConversationSnapshot>) -> (r: Result<
    Json,
    ApiError,
>)
    ensures
        match updated {
            Some(s) => r matches Ok(j) && j@ == conversation_json(*s),
            None => r matches Err(e) && e@ == conversation_missing(id@, "id"@),
        },
{
    get_conversation(id, updated)
}

/// The answer to a request to delete a conversation, which was there or not.
pub fn delete_conversation(id: &str, existed: bool) -> (r: Result<Json, ApiError>)
    ensures
        if existed {
            r matches Ok(j) && j@ == deleted_json(id@, "conversation.deleted"@)
        } else {
            r matches Err(e) && e@ == conversation_missing(id@, "id"@)
        },
{
    if existed {
        Ok(deleted_body(id, "conversation.deleted"))
    } else {
        Err(conversation_not_found(id, "id"))
    }
}

/// The answer to a request to delete an item, which was there or not.
pub fn delete_conversation_item(id: &str, item: &str, existed: bool) -> (r: Result<Json, ApiError>)
    ensures
        if existed {
            r matches Ok(j) && j@ == deleted_json(item@, "conversation.item.deleted"@)
        } else {
            r matches Err(e) && e@ == item_missing(id@, item@)
        },
{
    if existed {
        Ok(deleted_body(item, "conversation.item.deleted"))
    } else {
        Err(item_not_found(id, item))
    }
}

/// A client sees of a conversation what is kept of it: its name, when it began,
/// and each note beside it.
pub proof fn law_conversation_is_shown(s: ConversationSnapshot, i: int)
    ensures
        ({
            let j = conversation_json(s);
            &&& member_of(j, "id"@) == Some(JsonView::Str(s.id@))
            &&& member_of(j, "object"@) == Some(JsonView::Str("conversation"@))
            &&& member_of(j, "created_at"@) == Some(
                JsonView::Number(NumberView::Unsigned(s.created_at)),
            )
            &&& member_of(j, "metadata"@) matches Some(JsonView::Object(m)) && m.len()
                == s.metadata@.len() && (0 <= i < m.len() ==> m[i] == (
                s.metadata@[i].0@,
                JsonView::Str(s.metadata@[i].1@),
            ))
        }),
{
    lemma_listing_keys();
    reveal_with_fuel(key_at, 5);
}

/// What was added is told back, all of it.
pub proof fn law_added_items_are_told(items: Seq<JsonView>)
    ensures
        member_of(added_json(items), "data"@) == Some(JsonView::Array(items)),
        member_of(added_json(items), "object"@) == Some(JsonView::Str("list"@)),
{
    lemma_listing_keys();
    reveal_with_fuel(key_at, 3);
}

/// The error of something that is not there names it, and where it was looked
/// for; that of too many items says how many there were, and how many there may
/// be.
pub proof fn law_errors_name_what_is_missing(id: Seq<char>, item: Seq<char>, param: Seq<char>, n: nat)
    ensures
        conversation_missing(id, param).status == NOT_FOUND,
        contains(conversation_missing(id, param).message, id),
        conversation_missing(id, param).param == Some(param),
        item_missing(id, item).status == NOT_FOUND,
        contains(item_missing(id, item).message, id),
        contains(item_missing(id, item).message, item),
        item_missing(id, item).param == Some("item_id"@),
        too_many(n).status == BAD_REQUEST,
        contains(too_many(n).message, dec(n)),
        contains(too_many(n).message, dec(MAX_ITEMS_PER_INSERT as nat)),
        too_many(n).param == Some("items"@),
{
    lemma_stands_between("Conversation '"@, id, "' not found."@);
    let i = item_missing(id, item).message;
    let mid = "' not found in conversation '"@;
    lemma_stands_between("Item '"@, item, mid + id + "'."@);
    assert(i =~= "Item '"@ + item + (mid + id + "'."@));
    lemma_stands_between("Item '"@ + item + mid, id, "'."@);
    let t = too_many(n).message;
    let a = "`items` exceeds per-call cap of "@;
    let most = dec(MAX_ITEMS_PER_INSERT as nat);
    lemma_stands_between(a, most, " (got "@ + dec(n) + ")."@);
    assert(t =~= a + most + (" (got "@ + dec(n) + ")."@));
    lemma_stands_between(a + most + " (got "@, dec(n), ")."@);
}

/// A listing of a conversation keeps to the order and the number asked for, and
/// looks at no cursor.
pub proof fn law_cursors_are_left_out(q: QueryView)
    ensures
        without_cursors(q).order == q.order,
        without_cursors(q).limit == q.limit,
        without_cursors(q).after is None,
        without_cursors(q).before is None,
{
}

/// The errors of what is not there are told in these words.
pub proof fn law_missing_is_told_in_words(id: Seq<char>, item: Seq<char>, param: Seq<char>)
    ensures
        conversation_missing(id, param).message == "Conversation '"@ + id + "' not found."@,
        item_missing(id, item).message == "Item '"@ + item + "' not found in conversation '"@ + id
            + "'."@,
{
}

} // verus!

//! The Responses API on top of chat completions.
use vstd::prelude::*;
use crate::api_error::{ApiError, BAD_REQUEST, NOT_FOUND};
use crate::api_error::{param_error, plain_error, ErrorView};
use crate::decimal::dec_u64;
use crate::decimal::{dec, law_numbers_read_back};
use crate::json::{array, no_members, no_values, object, push_member, push_value, Json};
use crate::json::{
    get, json_views, lemma_json_views, member_of, member_views, str_of, unsigned_of, JsonView,
    NumberView,
};
use crate::json_text::parse_json_bytes;
use crate::json_text::bytes_json;
use crate::messages::IncomingMessage;
use crate::messages::{
    lemma_message_views_push, message_views, plain_message, MessageView,
};
use crate::openai::chat_request::ChatCompletionRequest;
use crate::openai::chat_response::{CompletionTokensDetails, PromptTokensDetails};
use crate::openai::reading::{
    read_annotations, read_calls, read_completion_details, read_prompt_details,
};
use crate::openai::reading::{
    annotations_in, calls_in, completion_details_in, law_calls_are_read, prompt_details_in,
};
use crate::openai::types::Annotation;
use crate::openai::types::{opt_annotations, CitationView};
use crate::text::{chars_of, own, stands_at, string_of};
use crate::text::{concat_all, occurs_at, starts_with};
use crate::tools::opt_view;

verus! {

// ---------------------------------------------------------------------------
// Reading values
// ---------------------------------------------------------------------------
/// The text of a member, where it is one.
pub open spec fn text_field(j: JsonView, key: Seq<char>) -> Option<Seq<char>> {
    match member_of(j, key) {
        Some(v) => str_of(v),
        None => None,
    }
}

/// The text of a member, or else another.
pub open spec fn text_or(j: JsonView, key: Seq<char>, other: Seq<char>) -> Seq<char> {
    match text_field(j, key) {
        Some(s) => s,
        None => other,
    }
}

/// The number of a member, or 0.
pub open spec fn count_field(j: JsonView, key: Seq<char>) -> u64 {
    match member_of(j, key) {
        Some(v) => match unsigned_of(v) {
            Some(n) => n,
            None => 0,
        },
        None => 0,
    }
}

/// The member of a value, or `null`.
pub open spec fn field_or_null(j: JsonView, key: Seq<char>) -> JsonView {
    match member_of(j, key) {
        Some(v) => v,
        None => JsonView::Null,
    }
}

/// The first choice of a completion.
pub open spec fn first_choice(chat: JsonView) -> Option<JsonView> {
    match member_of(chat, "choices"@) {
        Some(JsonView::Array(a)) => if a.len() > 0 {
            Some(a[0])
        } else {
            None
        },
        _ => None,
    }
}

/// Computes [`text_field`].
pub fn text_at<'a>(j: &'a Json, key: &str) -> (r: Option<&'a String>)
    ensures
        match r {
            Some(s) => text_field(j@, key@) == Some(s@),
            None => text_field(j@, key@) is None,
        },
{
    match j.get(key) {
        Some(v) => v.as_str(),
        None => None,
    }
}

/// Computes [`text_or`].
pub fn text_else(j: &Json, key: &str, other: &str) -> (r: String)
    ensures
        r@ == text_or(j@, key@, other@),
{
    match text_at(j, key) {
        Some(s) => s.clone(),
        None => own(other),
    }
}

/// Computes [`count_field`].
fn count_at(j: &Json, key: &str) -> (r: u64)
    ensures
        r == count_field(j@, key@),
{
    match j.get(key) {
        Some(v) => match v.as_u64() {
            Some(n) => n,
            None => 0,
        },
        None => 0,
    }
}

/// Computes [`first_choice`].
pub fn first_choice_of(chat: &Json) -> (r: Option<&Json>)
    ensures
        match r {
            Some(c) => first_choice(chat@) == Some(c@),
            None => first_choice(chat@) is None,
        },
{
    match chat.get("choices") {
        Some(v) => match v.as_array() {
            Some(a) => {
                proof {
                    lemma_json_views(a@);
                }
                if a.len() > 0 {
                    Some(&a[0])
                } else {
                    None
                }
            },
            None => None,
        },
        None => None,
    }
}

// ---------------------------------------------------------------------------
// Conversations
// ---------------------------------------------------------------------------
/// The conversation that a request names: by its identifier, or by an object
/// that holds it.
pub open spec fn conversation_named(j: Option<JsonView>) -> Result<Option<Seq<char>>, ErrorView> {
    match j {
        None => Ok(None),
        Some(JsonView::Str(s)) => Ok(Some(s)),
        Some(JsonView::Object(o)) => Ok(text_field(JsonView::Object(o), "id"@)),
        Some(_) => Err(
            param_error(
                BAD_REQUEST,
                "`conversation` must be a string id or an object with an `id` field."@,
                "conversation"@,
                None,
            ),
        ),
    }
}

/// The view of an optional value.
pub open spec fn opt_json(o: Option<Json>) -> Option<JsonView> {
    match o {
        Some(j) => Some(j@),
        None => None,
    }
}

/// Computes [`conversation_named`].
pub fn resolve_conversation(conversation: &Option<Json>) -> (r: Result<Option<String>, ApiError>)
    ensures
        match r {
            Ok(id) => conversation_named(opt_json(*conversation)) == Ok::<
                Option<Seq<char>>,
                ErrorView,
            >(opt_view(id)),
            Err(e) => conversation_named(opt_json(*conversation)) == Err::<
                Option<Seq<char>>,
                ErrorView,
            >(e@),
        },
{
    match conversation {
        None => Ok(None),
        Some(j) => match j {
            Json::Str(s) => Ok(Some(s.clone())),
            Json::Object(_) => match text_at(j, "id") {
                Some(s) => Ok(Some(s.clone())),
                None => Ok(None),
            },
            _ => Err(
                ApiError::at(
                    BAD_REQUEST,
                    own("`conversation` must be a string id or an object with an `id` field."),
                    "conversation",
                    None,
                ),
            ),
        },
    }
}

/// The error of a conversation that is not there, at this parameter.
pub open spec fn conversation_missing(id: Seq<char>, param: Seq<char>) -> ErrorView {
    param_error(
        NOT_FOUND,
        "Conversation '"@ + id + "' not found."@,
        param,
        Some("conversation_not_found"@),
    )
}

/// Computes [`conversation_missing`].
pub fn conversation_not_found(id: &str, param: &str) -> (r: ApiError)
    ensures
        r@ == conversation_missing(id@, param@),
{
    let mut m = own("Conversation '");
    m.append(id);
    m.append("' not found.");
    ApiError::at(NOT_FOUND, m, param, Some("conversation_not_found"))
}

/// The texts of the parts that have one.
pub open spec fn part_texts(parts: Seq<JsonView>) -> Seq<Seq<char>>
    decreases parts.len(),
{
    if parts.len() == 0 {
        Seq::empty()
    } else {
        let before = part_texts(parts.drop_last());
        match text_field(parts.last(), "text"@) {
            Some(t) => before.push(t),
            None => before,
        }
    }
}

/// The text of an item: its content, or the texts of its parts one after the
/// other.
pub open spec fn item_text(item: JsonView) -> Seq<char> {
    match member_of(item, "content"@) {
        Some(JsonView::Str(s)) => s,
        Some(JsonView::Array(parts)) => concat_all(part_texts(parts)),
        _ => Seq::empty(),
    }
}

/// The message that an item stands for; `None` where it has no role.
pub open spec fn item_message(item: JsonView) -> Option<MessageView> {
    match text_field(item, "role"@) {
        Some(role) => Some(plain_message(role, item_text(item))),
        None => None,
    }
}

/// Computes [`item_message`].
pub fn conversation_item_to_message(item: &Json) -> (r: Option<IncomingMessage>)
    ensures
        match r {
            Some(m) => item_message(item@) == Some(m@),
            None => item_message(item@) is None,
        },
{
    let role = match text_at(item, "role") {
        Some(r) => r,
        None => return None,
    };
    let mut text = String::new();
    match item.get("content") {
        Some(v) => match v {
            Json::Str(s) => {
                text.append(s.as_str());
                assert(text@ =~= s@);
            },
            Json::Array(parts) => {
                let ghost pv = json_views(parts@);
                let mut i: usize = 0;
                proof {
                    lemma_json_views(parts@);
                    assert(pv.take(0) =~= Seq::<JsonView>::empty());
                }
                assert(text@ =~= concat_all(part_texts(pv.take(0))));
                while i < parts.len()
                    invariant
                        i <= parts@.len(),
                        pv.len() == parts@.len(),
                        forall|k: int| 0 <= k < parts@.len() ==> pv[k] == (#[trigger] parts@[k])@,
                        text@ == concat_all(part_texts(pv.take(i as int))),
                    decreases parts@.len() - i,
                {
                    proof {
                        assert(pv.take(i + 1).drop_last() =~= pv.take(i as int));
                        assert(pv[i as int] == parts@[i as int]@);
                    }
                    match text_at(&parts[i], "text") {
                        Some(t) => {
                            text.append(t.as_str());
                            proof {
                                let before = part_texts(pv.take(i as int));
                                assert(before.push(t@).drop_last() =~= before);
                            }
                        },
                        None => {},
                    }
                    i += 1;
                }
                assert(pv.take(i as int) =~= pv);
            },
            _ => {},
        },
        None => {},
    }
    assert(text@ =~= item_text(item@));
    Some(IncomingMessage::plain(role.as_str(), text))
}

/// The messages that some items stand for. One without a role is left out.
pub open spec fn item_messages(items: Seq<JsonView>) -> Seq<MessageView>
    decreases items.len(),
{
    if items.len() == 0 {
        Seq::empty()
    } else {
        let before = item_messages(items.drop_last());
        match item_message(items.last()) {
            Some(m) => before.push(m),
            None => before,
        }
    }
}

/// Computes [`item_messages`].
pub fn conversation_prefix(items: &Vec<Json>) -> (r: Vec<IncomingMessage>)
    ensures
        message_views(r@) == item_messages(json_views(items@)),
{
    broadcast use lemma_message_views_push;

    let ghost iv = json_views(items@);
    let mut out: Vec<IncomingMessage> = Vec::new();
    let mut i: usize = 0;
    proof {
        lemma_json_views(items@);
        assert(iv.take(0) =~= Seq::<JsonView>::empty());
        assert(message_views(out@) =~= Seq::<MessageView>::empty());
    }
    while i < items.len()
        invariant
            i <= items@.len(),
            iv.len() == items@.len(),
            forall|k: int| 0 <= k < items@.len() ==> iv[k] == (#[trigger] items@[k])@,
            message_views(out@) == item_messages(iv.take(i as int)),
        decreases items@.len() - i,
    {
        proof {
            assert(iv.take(i + 1).drop_last() =~= iv.take(i as int));
            assert(iv[i as int] == items@[i as int]@);
        }
        match conversation_item_to_message(&items[i]) {
            Some(m) => {
                out.push(m);
            },
            None => {},
        }
        i += 1;
    }
    assert(iv.take(i as int) =~= iv);
    out
}

/// Puts the messages of a conversation before those of a request.
pub fn prepend_messages(prefix: Vec<IncomingMessage>, messages: &mut Vec<IncomingMessage>)
    ensures
        final(messages)@ == prefix@ + old(messages)@,
{
    let mut all = prefix;
    all.append(messages);
    *messages = all;
}

/// Why a request has no counterpart in the chat pipeline.
#[derive(Debug)]
pub enum LowerResponsesError {
    /// It is malformed.
    BadRequest(String),
    /// The response that it goes on from is not there.
    PriorNotFound(String),
}

/// What a client is told of it.
pub open spec fn lower_error(e: LowerResponsesError) -> ErrorView {
    match e {
        LowerResponsesError::BadRequest(m) => plain_error(BAD_REQUEST, m@),
        LowerResponsesError::PriorNotFound(m) => param_error(
            BAD_REQUEST,
            m@,
            "previous_response_id"@,
            Some("response_not_found"@),
        ),
    }
}

/// Begins a turn: the request in the shape of the chat pipeline, with the
/// messages of its conversation before its own. `items` are the items of the
/// conversation, where it is there.
pub fn begin_response<F>(
    conversation: Option<&str>,
    items: Option<&Vec<Json>>,
    lowered: Result<ChatCompletionRequest<F>, LowerResponsesError>,
) -> (r: Result<ChatCompletionRequest<F>, ApiError>)
    ensures
        match (conversation, items) {
            (Some(id), None) => r matches Err(e) && e@ == conversation_missing(
                id@,
                "conversation"@,
            ),
            _ => match lowered {
                Err(e) => r matches Err(x) && x@ == lower_error(e),
                Ok(req) => r matches Ok(q) && {
                    &&& q == (ChatCompletionRequest { messages: q.messages, ..req })
                    &&& message_views(q.messages@) == match (conversation, items) {
                        (Some(_), Some(i)) => item_messages(json_views(i@)) + message_views(
                            req.messages@,
                        ),
                        _ => message_views(req.messages@),
                    }
                },
            },
        },
{
    let prefix = match conversation {
        None => None,
        Some(id) => match items {
            Some(i) => Some(conversation_prefix(i)),
            None => {
                return Err(conversation_not_found(id, "conversation"));
            },
        },
    };
    let mut req = match lowered {
        Ok(q) => q,
        Err(LowerResponsesError::BadRequest(m)) => {
            return Err(ApiError::plain(BAD_REQUEST, m));
        },
        Err(LowerResponsesError::PriorNotFound(m)) => {
            return Err(
                ApiError::at(
                    BAD_REQUEST,
                    m,
                    "previous_response_id",
                    Some("response_not_found"),
                ),
            );
        },
    };
    match prefix {
        Some(p) => {
            let ghost own_messages = req.messages@;
            let ghost before = p@;
            prepend_messages(p, &mut req.messages);
            assert(message_views(req.messages@) =~= message_views(before) + message_views(
                own_messages,
            ));
        },
        None => {},
    }
    Ok(req)
}

// ---------------------------------------------------------------------------
// Server-sent events
// ---------------------------------------------------------------------------
/// Whether a blank line stands at `i`.
pub open spec fn frame_end(buf: Seq<u8>, i: int) -> bool {
    0 <= i && i + 1 < buf.len() && buf[i] == 10 && buf[i + 1] == 10
}

/// Finds the first blank line.
pub fn find_frame_end(buf: &[u8]) -> (r: Option<usize>)
    ensures
        match r {
            Some(i) => frame_end(buf@, i as int) && forall|j: int|
                0 <= j < i ==> !#[trigger] frame_end(buf@, j),
            None => forall|j: int| !#[trigger] frame_end(buf@, j),
        },
{
    let mut i: usize = 0;
    while i < buf.len() && buf.len() - i >= 2
        invariant
            i <= buf@.len(),
            forall|j: int| 0 <= j < i ==> !#[trigger] frame_end(buf@, j),
        decreases buf@.len() - i,
    {
        if buf[i] == 10 && buf[i + 1] == 10 {
            assert(frame_end(buf@, i as int));
            return Some(i);
        }
        i += 1;
    }
    None
}

// ---------------------------------------------------------------------------
// From a completion to a response
// ---------------------------------------------------------------------------
/// Token counts.
#[derive(Debug, Clone, Copy, PartialEq, Eq, Structural)]
pub struct ResponsesUsage {
    pub input_tokens: usize,
    pub input_tokens_details: Option<PromptTokensDetails>,
    pub output_tokens: usize,
    pub output_tokens_details: Option<CompletionTokensDetails>,
    pub total_tokens: usize,
}

/// The counts and the details of a completion's usage.
pub open spec fn usage_in(u: JsonView) -> ResponsesUsage {
    ResponsesUsage {
        input_tokens: count_field(u, "prompt_tokens"@) as usize,
        input_tokens_details: match member_of(u, "prompt_tokens_details"@) {
            Some(d) => prompt_details_in(d),
            None => None,
        },
        output_tokens: count_field(u, "completion_tokens"@) as usize,
        output_tokens_details: match member_of(u, "completion_tokens_details"@) {
            Some(d) => completion_details_in(d),
            None => None,
        },
        total_tokens: count_field(u, "total_tokens"@) as usize,
    }
}

/// Computes [`usage_in`].
pub fn build_responses_usage(u: &Json) -> (r: ResponsesUsage)
    ensures
        r == usage_in(u@),
{
    ResponsesUsage {
        input_tokens: count_at(u, "prompt_tokens") as usize,
        input_tokens_details: match u.get("prompt_tokens_details") {
            Some(d) => read_prompt_details(d),
            None => None,
        },
        output_tokens: count_at(u, "completion_tokens") as usize,
        output_tokens_details: match u.get("completion_tokens_details") {
            Some(d) => read_completion_details(d),
            None => None,
        },
        total_tokens: count_at(u, "total_tokens") as usize,
    }
}

/// A part of an output message.
#[derive(Debug)]
pub struct OutputText {
    pub annotations: Option<Vec<Annotation>>,
    pub text: String,
}

/// One output of a response. All are complete.
#[derive(Debug)]
pub enum ResponsesOutputItem {
    /// A tool call.
    FunctionCall { id: String, call_id: String, name: String, arguments: String },
    /// A message of the assistant.
    Message { id: String, content: Vec<OutputText> },
}

/// What an [`OutputText`] says.
pub struct TextView {
    pub annotations: Option<Seq<CitationView>>,
    pub text: Seq<char>,
}

impl View for OutputText {
    type V = TextView;

    open spec fn view(&self) -> TextView {
        TextView { annotations: opt_annotations(self.annotations), text: self.text@ }
    }
}

/// What a [`ResponsesOutputItem`] says.
pub enum ItemView {
    FunctionCall { id: Seq<char>, call_id: Seq<char>, name: Seq<char>, arguments: Seq<char> },
    Message { id: Seq<char>, texts: Seq<TextView> },
}

/// What the parts of a message say.
pub open spec fn output_texts(s: Seq<OutputText>) -> Seq<TextView> {
    s.map_values(|t: OutputText| t@)
}

impl View for ResponsesOutputItem {
    type V = ItemView;

    open spec fn view(&self) -> ItemView {
        match *self {
            ResponsesOutputItem::FunctionCall { id, call_id, name, arguments } => {
                ItemView::FunctionCall {
                    id: id@,
                    call_id: call_id@,
                    name: name@,
                    arguments: arguments@,
                }
            },
            ResponsesOutputItem::Message { id, content } => ItemView::Message {
                id: id@,
                texts: output_texts(content@),
            },
        }
    }
}

/// The views of a sequence of outputs.
pub open spec fn item_views(s: Seq<ResponsesOutputItem>) -> Seq<ItemView> {
    s.map_values(|i: ResponsesOutputItem| i@)
}

/// A complete response.
#[derive(Debug)]
pub struct ResponsesResponse {
    pub id: String,
    pub created_at: u64,
    pub model: String,
    pub output: Vec<ResponsesOutputItem>,
    pub usage: ResponsesUsage,
    pub metadata: Option<Vec<(String, String)>>,
}

/// A text without the prefix, however often it stands there.
pub open spec fn without_prefix(s: Seq<char>, p: Seq<char>) -> Seq<char>
    decreases s.len(),
{
    if p.len() > 0 && occurs_at(s, p, 0) {
        without_prefix(s.skip(p.len() as int), p)
    } else {
        s
    }
}

/// Computes [`without_prefix`].
fn strip_prefix(s: &str, p: &str) -> (r: String)
    requires
        p@.len() > 0,
    ensures
        r@ == without_prefix(s@, p@),
{
    let v = chars_of(s);
    let pv = chars_of(p);
    let mut from: usize = 0;
    assert(v@.skip(0) =~= v@);
    while stands_at(&v, &pv, from)
        invariant
            from <= v@.len(),
            pv@.len() > 0,
            without_prefix(v@.skip(from as int), pv@) == without_prefix(v@, pv@),
        decreases v@.len() - from,
    {
        proof {
            let t = v@.skip(from as int);
            assert(t.subrange(0, pv@.len() as int) =~= v@.subrange(
                from as int,
                from + pv@.len(),
            ));
            assert(t.skip(pv@.len() as int) =~= v@.skip(from + pv@.len()));
        }
        assert(from + pv.len() <= v.len());
        from = from + pv.len();
    }
    proof {
        let t = v@.skip(from as int);
        if occurs_at(t, pv@, 0) {
            assert(v@.subrange(from as int, from + pv@.len()) =~= t.subrange(0, pv@.len() as int));
        }
    }
    let r = string_of(&v, from, v.len());
    assert(r@ =~= v@.skip(from as int));
    r
}

/// The identifier of a completion.
pub open spec fn chat_id(chat: JsonView) -> Seq<char> {
    text_or(chat, "id"@, "chatcmpl-unknown"@)
}

/// The identifier of the response to a completion.
pub open spec fn response_id(chat: JsonView) -> Seq<char> {
    "resp_"@ + without_prefix(chat_id(chat), "chatcmpl-"@)
}

/// The output of a call.
pub open spec fn call_item(id: Seq<char>, i: int, tc: JsonView) -> ItemView {
    let f = field_or_null(tc, "function"@);
    ItemView::FunctionCall {
        id: "fc_"@ + id + "_"@ + dec(i as nat),
        call_id: text_or(tc, "id"@, ""@),
        name: text_or(f, "name"@, ""@),
        arguments: text_or(f, "arguments"@, ""@),
    }
}

/// The calls of a message.
pub open spec fn message_calls(msg: JsonView) -> Seq<JsonView> {
    match member_of(msg, "tool_calls"@) {
        Some(JsonView::Array(a)) => a,
        _ => Seq::empty(),
    }
}

/// The outputs of a message: its calls, then its content.
pub open spec fn message_items(id: Seq<char>, msg: JsonView) -> Seq<ItemView> {
    let calls = message_calls(msg);
    Seq::new(calls.len(), |i: int| call_item(id, i, calls[i])) + match text_field(
        msg,
        "content"@,
    ) {
        Some(text) => seq![
            ItemView::Message {
                id: "msg_"@ + id,
                texts: seq![TextView { annotations: annotations_in(msg), text }],
            },
        ],
        None => Seq::empty(),
    }
}

/// The outputs of a completion: those of its first choice.
pub open spec fn output_items(chat: JsonView) -> Seq<ItemView> {
    match first_choice(chat) {
        Some(c) => message_items(chat_id(chat), field_or_null(c, "message"@)),
        None => Seq::empty(),
    }
}

/// Computes [`call_item`].
fn item_of_call(id: &str, i: usize, tc: &Json) -> (r: ResponsesOutputItem)
    ensures
        r@ == call_item(id@, i as int, tc@),
{
    let mut item_id = own("fc_");
    item_id.append(id);
    item_id.append("_");
    item_id.append(dec_u64(i as u64).as_str());
    let null = Json::Null;
    let f = match tc.get("function") {
        Some(f) => f,
        None => &null,
    };
    ResponsesOutputItem::FunctionCall {
        id: item_id,
        call_id: text_else(tc, "id", ""),
        name: text_else(f, "name", ""),
        arguments: text_else(f, "arguments", ""),
    }
}

/// Computes [`message_items`].
fn items_of_message(id: &str, msg: &Json) -> (r: Vec<ResponsesOutputItem>)
    ensures
        item_views(r@) == message_items(id@, msg@),
{
    let mut out: Vec<ResponsesOutputItem> = Vec::new();
    let ghost cv = message_calls(msg@);
    let ghost want = Seq::new(cv.len(), |k: int| call_item(id@, k, cv[k]));
    assert(item_views(out@) =~= want.take(0));
    match msg.get("tool_calls") {
        Some(v) => match v.as_array() {
            Some(calls) => {
                let mut i: usize = 0;
                proof {
                    lemma_json_views(calls@);
                }
                while i < calls.len()
                    invariant
                        i <= calls@.len(),
                        cv.len() == calls@.len(),
                        forall|k: int| 0 <= k < calls@.len() ==> cv[k] == (#[trigger] calls@[k])@,
                        want == Seq::new(cv.len(), |k: int| call_item(id@, k, cv[k])),
                        item_views(out@) == want.take(i as int),
                    decreases calls@.len() - i,
                {
                    let ghost held = out@;
                    assert(cv[i as int] == calls@[i as int]@);
                    let item = item_of_call(id, i, &calls[i]);
                    let ghost v = item@;
                    out.push(item);
                    assert(item_views(out@) =~= item_views(held).push(v));
                    i += 1;
                    assert(item_views(out@) =~= want.take(i as int));
                }
            },
            None => {},
        },
        None => {},
    }
    assert(want.take(want.len() as int) =~= want);
    assert(item_views(out@) =~= want);
    match text_at(msg, "content") {
        Some(t) => {
            let mut item_id = own("msg_");
            item_id.append(id);
            let ghost held = out@;
            let mut content: Vec<OutputText> = Vec::new();
            content.push(OutputText { annotations: read_annotations(msg), text: t.clone() });
            assert(output_texts(content@) =~= seq![
                TextView { annotations: annotations_in(msg@), text: t@ },
            ]);
            let item = ResponsesOutputItem::Message { id: item_id, content };
            let ghost v = item@;
            out.push(item);
            assert(item_views(out@) =~= item_views(held).push(v));
        },
        None => {},
    }
    assert(item_views(out@) =~= message_items(id@, msg@));
    out
}

impl ResponsesResponse {
    /// Whether this is the response to a completion. `now` stands in for a
    /// completion without a time.
    pub open spec fn answers(self, chat: JsonView, now: u64) -> bool {
        &&& self.id@ == response_id(chat)
        &&& self.created_at == match member_of(chat, "created"@) {
            Some(v) => match unsigned_of(v) {
                Some(n) => n,
                None => now,
            },
            None => now,
        }
        &&& self.model@ == text_or(chat, "model"@, ""@)
        &&& item_views(self.output@) == output_items(chat)
        &&& self.usage == usage_in(field_or_null(chat, "usage"@))
    }
}

/// Turns the body of a completion into a response; `None` where it is no JSON
/// and is to be passed on as it is.
pub fn translate_chat_response_to_responses(
    body: &[u8],
    now: u64,
    metadata: Option<Vec<(String, String)>>,
) -> (r: Option<(Json, ResponsesResponse)>)
    ensures
        match r {
            Some((chat, resp)) => bytes_json(body@) == Some(chat@) && resp.answers(chat@, now)
                && resp.metadata == metadata,
            None => bytes_json(body@) is None,
        },
{
    match parse_json_bytes(body) {
        Some(chat) => {
            let resp = translate_response(&chat, now, metadata);
            Some((chat, resp))
        },
        None => None,
    }
}

/// Turns a completion into a response.
pub fn translate_response(
    chat: &Json,
    now: u64,
    metadata: Option<Vec<(String, String)>>,
) -> (r: ResponsesResponse)
    ensures
        r.answers(chat@, now),
        r.metadata == metadata,
{
    let null = Json::Null;
    let id = text_else(chat, "id", "chatcmpl-unknown");
    let created_at = match chat.get("created") {
        Some(v) => match v.as_u64() {
            Some(n) => n,
            None => now,
        },
        None => now,
    };
    let output = match first_choice_of(chat) {
        Some(choice) => {
            let msg = match choice.get("message") {
                Some(m) => m,
                None => &null,
            };
            items_of_message(id.as_str(), msg)
        },
        None => {
            let none: Vec<ResponsesOutputItem> = Vec::new();
            assert(item_views(none@) =~= Seq::<ItemView>::empty());
            none
        },
    };
    let u = match chat.get("usage") {
        Some(u) => u,
        None => &null,
    };
    let usage = build_responses_usage(u);
    proof {
        reveal_strlit("chatcmpl-");
    }
    let mut resp_id = own("resp_");
    resp_id.append(strip_prefix(id.as_str(), "chatcmpl-").as_str());
    ResponsesResponse {
        id: resp_id,
        created_at,
        model: text_else(chat, "model", ""),
        output,
        usage,
        metadata,
    }
}

// ---------------------------------------------------------------------------
// What is kept of a turn
// ---------------------------------------------------------------------------
/// The assistant's message of a completion, with its text and its calls.
pub open spec fn assistant_turn(chat: JsonView) -> Option<MessageView> {
    match first_choice(chat) {
        Some(choice) => match member_of(choice, "message"@) {
            Some(msg) => Some(
                MessageView {
                    tool_calls: calls_in(msg),
                    ..plain_message("assistant"@, text_or(msg, "content"@, ""@))
                },
            ),
            None => None,
        },
        None => None,
    }
}

/// Computes [`assistant_turn`].
pub fn extract_assistant_incoming_message(chat: &Json) -> (r: Option<IncomingMessage>)
    ensures
        match r {
            Some(m) => assistant_turn(chat@) == Some(m@),
            None => assistant_turn(chat@) is None,
        },
{
    let choice = match first_choice_of(chat) {
        Some(c) => c,
        None => return None,
    };
    let msg = match choice.get("message") {
        Some(m) => m,
        None => return None,
    };
    let plain = IncomingMessage::plain("assistant", text_else(msg, "content", ""));
    Some(IncomingMessage { tool_calls: read_calls(msg), ..plain })
}

/// The transcript that is kept for a later turn: what was sent, and the
/// assistant's message.
pub open spec fn kept_turn(input: Seq<MessageView>, chat: JsonView) -> Seq<MessageView> {
    match assistant_turn(chat) {
        Some(m) => input.push(m),
        None => input,
    }
}

/// Computes [`kept_turn`].
pub fn transcript(input: Vec<IncomingMessage>, chat: &Json) -> (r: Vec<IncomingMessage>)
    ensures
        message_views(r@) == kept_turn(message_views(input@), chat@),
{
    broadcast use lemma_message_views_push;

    let mut all = input;
    match extract_assistant_incoming_message(chat) {
        Some(m) => {
            all.push(m);
        },
        None => {},
    }
    all
}

/// An item of a conversation: a message with one part of this type.
pub open spec fn message_item(role: Seq<char>, part: Seq<char>, text: Seq<char>) -> JsonView {
    JsonView::Object(
        seq![
            ("type"@, JsonView::Str("message"@)),
            ("role"@, JsonView::Str(role)),
            (
                "content"@,
                JsonView::Array(
                    seq![
                        JsonView::Object(
                            seq![
                                ("type"@, JsonView::Str(part)),
                                ("text"@, JsonView::Str(text)),
                            ],
                        ),
                    ],
                ),
            ),
        ],
    )
}

/// Computes [`message_item`].
pub fn build_message_item(role: &str, part: &str, text: &str) -> (r: Json)
    ensures
        r@ == message_item(role@, part@, text@),
{
    let mut p = no_members();
    push_member(&mut p, "type", Json::text(part));
    push_member(&mut p, "text", Json::text(text));
    assert(member_views(p@) =~= seq![
        ("type"@, JsonView::Str(part@)),
        ("text"@, JsonView::Str(text@)),
    ]);
    let mut parts = no_values();
    let pj = object(p);
    let ghost pjv = pj@;
    push_value(&mut parts, pj);
    assert(json_views(parts@) =~= seq![pjv]);
    let mut o = no_members();
    push_member(&mut o, "type", Json::text("message"));
    push_member(&mut o, "role", Json::text(role));
    push_member(&mut o, "content", array(parts));
    proof {
        let want = message_item(role@, part@, text@)->Object_0;
        assert(member_views(o@) =~= want);
    }
    object(o)
}

/// The text of the assistant in a completion.
pub open spec fn assistant_text(chat: JsonView) -> Seq<char> {
    match first_choice(chat) {
        Some(c) => match member_of(c, "message"@) {
            Some(m) => text_or(m, "content"@, ""@),
            None => ""@,
        },
        None => ""@,
    }
}

/// What a turn adds to a conversation of `prior` items: the messages behind
/// them, and the assistant's text, unless it is empty.
pub open spec fn turn_items(input: Seq<MessageView>, prior: nat, chat: JsonView) -> Seq<JsonView> {
    let new = if prior < input.len() {
        input.skip(prior as int)
    } else {
        Seq::empty()
    };
    new.map_values(|m: MessageView| message_item(m.role, "input_text"@, m.text)) + if assistant_text(
        chat,
    ).len() > 0 {
        seq![message_item("assistant"@, "output_text"@, assistant_text(chat))]
    } else {
        Seq::empty()
    }
}

/// Computes [`turn_items`].
pub fn conversation_batch(input: &Vec<IncomingMessage>, prior: usize, chat: &Json) -> (r: Vec<Json>)
    ensures
        json_views(r@) == turn_items(message_views(input@), prior as nat, chat@),
{
    let ghost mv = message_views(input@);
    let ghost new = if prior < mv.len() {
        mv.skip(prior as int)
    } else {
        Seq::empty()
    };
    let ghost want = new.map_values(|m: MessageView| message_item(m.role, "input_text"@, m.text));
    let mut batch = no_values();
    let mut i: usize = prior;
    assert(json_views(batch@) =~= want.take(0));
    while i < input.len()
        invariant
            prior <= i,
            prior < input@.len() ==> i <= input@.len(),
            prior >= input@.len() ==> i == prior,
            mv == message_views(input@),
            new == if prior < mv.len() {
                mv.skip(prior as int)
            } else {
                Seq::empty()
            },
            want == new.map_values(
                |m: MessageView| message_item(m.role, "input_text"@, m.text),
            ),
            json_views(batch@) == want.take(i - prior),
        decreases input@.len() - i,
    {
        assert(new[i - prior] == input@[i as int]@);
        let item = build_message_item(
            input[i].role.as_str(),
            "input_text",
            input[i].content.text.as_str(),
        );
        push_value(&mut batch, item);
        i += 1;
        assert(json_views(batch@) =~= want.take(i - prior));
    }
    assert(want.take(want.len() as int) =~= want);
    assert(json_views(batch@) =~= want);
    let text = match first_choice_of(chat) {
        Some(c) => match c.get("message") {
            Some(m) => text_else(m, "content", ""),
            None => own(""),
        },
        None => own(""),
    };
    if !text.as_str().is_empty() {
        push_value(&mut batch, build_message_item("assistant", "output_text", text.as_str()));
    }
    assert(json_views(batch@) =~= turn_items(mv, prior as nat, chat@));
    batch
}

/// A finished turn: what the client gets, and what is kept of it.
#[derive(Debug)]
pub struct SettledTurn {
    pub response: ResponsesResponse,
    /// The transcript that a later turn goes on from, where it is to be kept.
    pub transcript: Option<Vec<IncomingMessage>>,
    /// What is added to the conversation, where there is one and there is
    /// anything to add.
    pub items: Option<Vec<Json>>,
}

/// Finishes a turn; `None` where the chat pipeline failed or gave no JSON, and
/// its answer is passed on as it is. `prior` is the number of items of the
/// conversation, where there is one.
pub fn settle_response(
    succeeded: bool,
    body: &[u8],
    now: u64,
    metadata: Option<Vec<(String, String)>>,
    input: Vec<IncomingMessage>,
    store: bool,
    prior: Option<usize>,
) -> (r: Option<SettledTurn>)
    ensures
        match bytes_json(body@) {
            Some(chat) if succeeded => r matches Some(t) && {
                &&& t.response.answers(chat, now)
                &&& t.response.metadata == metadata
                &&& match t.transcript {
                    Some(kept) => store && message_views(kept@) == kept_turn(
                        message_views(input@),
                        chat,
                    ),
                    None => !store,
                }
                &&& match (prior, t.items) {
                    (Some(n), Some(i)) => i@.len() > 0 && json_views(i@) == turn_items(
                        message_views(input@),
                        n as nat,
                        chat,
                    ),
                    (Some(n), None) => turn_items(message_views(input@), n as nat, chat).len() == 0,
                    (None, i) => i is None,
                }
            },
            _ => r is None,
        },
{
    if !succeeded {
        return None;
    }
    let (chat, response) = match translate_chat_response_to_responses(
        body,
        now,
        metadata,
    ) {
        Some(x) => x,
        None => {
            return None;
        },
    };
    let items = match prior {
        Some(n) => {
            let batch = conversation_batch(&input, n, &chat);
            proof {
                lemma_json_views(batch@);
            }
            if batch.len() > 0 {
                Some(batch)
            } else {
                None
            }
        },
        None => None,
    };
    let transcript = if store {
        Some(transcript(input, &chat))
    } else {
        None
    };
    Some(SettledTurn { response, transcript, items })
}

/// A turn that is kept can be gone on from: its transcript is what was sent,
/// with the answer behind it.
pub proof fn law_kept_turn_holds_the_input(input: Seq<MessageView>, chat: JsonView)
    ensures
        kept_turn(input, chat).take(input.len() as int) == input,
        kept_turn(input, chat).len() <= input.len() + 1,
        assistant_turn(chat) matches Some(m) ==> kept_turn(input, chat).last() == m,
{
    assert(kept_turn(input, chat).take(input.len() as int) =~= input);
}

/// What a turn adds to a conversation reads back as the message that was said.
pub proof fn law_item_reads_back(role: Seq<char>, part: Seq<char>, text: Seq<char>)
    ensures
        item_message(message_item(role, part, text)) == Some(plain_message(role, text)),
{
    let item = message_item(role, part, text);
    let o = item->Object_0;
    reveal_strlit("type");
    reveal_strlit("role");
    reveal_strlit("content");
    reveal_strlit("text");
    assert("type"@ != "role"@) by {
        assert("type"@[0] != "role"@[0]);
    }
    assert("type"@ != "content"@) by {
        assert("type"@.len() != "content"@.len());
    }
    assert("role"@ != "content"@) by {
        assert("role"@.len() != "content"@.len());
    }
    assert("type"@ != "text"@) by {
        assert("type"@[1] != "text"@[1]);
    }
    reveal_with_fuel(crate::json::key_at, 4);
    assert(o[0].0 == "type"@ && o[1].0 == "role"@ && o[2].0 == "content"@);
    assert(crate::json::key_at(o, "role"@, 0) == Some(1int));
    assert(crate::json::key_at(o, "content"@, 0) == Some(2int));
    let parts = o[2].1->Array_0;
    let p = parts[0]->Object_0;
    assert(p[0].0 == "type"@ && p[1].0 == "text"@);
    assert(crate::json::key_at(p, "text"@, 0) == Some(1int));
    assert(text_field(parts[0], "text"@) == Some(text));
    assert(parts.len() == 1);
    assert(parts.drop_last() =~= Seq::<JsonView>::empty());
    assert(part_texts(parts) =~= seq![text]) by {
        reveal_with_fuel(part_texts, 2);
    }
    let ts = seq![text];
    assert(ts.drop_last() =~= Seq::<Seq<char>>::empty());
    reveal_with_fuel(concat_all, 2);
    assert(concat_all(ts) =~= text);
    assert(item_text(item) =~= text);
}

/// A whole turn reads back: the new messages in order with their texts, and
/// the assistant's text.
pub proof fn law_turn_reads_back(input: Seq<MessageView>, prior: nat, chat: JsonView)
    requires
        prior <= input.len(),
    ensures
        item_messages(turn_items(input, prior, chat)) == input.skip(prior as int).map_values(
            |m: MessageView| plain_message(m.role, m.text),
        ) + if assistant_text(chat).len() > 0 {
            seq![plain_message("assistant"@, assistant_text(chat))]
        } else {
            Seq::empty()
        },
{
    let new = input.skip(prior as int);
    let items = new.map_values(|m: MessageView| message_item(m.role, "input_text"@, m.text));
    lemma_inputs_read_back(new);
    let all = turn_items(input, prior, chat);
    if prior == input.len() {
        assert(new =~= Seq::<MessageView>::empty());
    }
    if assistant_text(chat).len() > 0 {
        let last = message_item("assistant"@, "output_text"@, assistant_text(chat));
        assert(all.drop_last() =~= items);
        assert(all.last() == last);
        law_item_reads_back("assistant"@, "output_text"@, assistant_text(chat));
    } else {
        assert(all =~= items);
    }
}

proof fn lemma_inputs_read_back(new: Seq<MessageView>)
    ensures
        item_messages(
            new.map_values(|m: MessageView| message_item(m.role, "input_text"@, m.text)),
        ) == new.map_values(|m: MessageView| plain_message(m.role, m.text)),
    decreases new.len(),
{
    let items = new.map_values(|m: MessageView| message_item(m.role, "input_text"@, m.text));
    let plain = new.map_values(|m: MessageView| plain_message(m.role, m.text));
    if new.len() > 0 {
        lemma_inputs_read_back(new.drop_last());
        assert(items.drop_last() =~= new.drop_last().map_values(
            |m: MessageView| message_item(m.role, "input_text"@, m.text),
        ));
        law_item_reads_back(new.last().role, "input_text"@, new.last().text);
        assert(plain =~= plain.drop_last().push(plain.last()));
        assert(plain.drop_last() =~= new.drop_last().map_values(
            |m: MessageView| plain_message(m.role, m.text),
        ));
    } else {
        assert(items =~= Seq::<JsonView>::empty());
        assert(plain =~= Seq::<MessageView>::empty());
    }
}

// ---------------------------------------------------------------------------
// Laws of the answer
// ---------------------------------------------------------------------------
/// The message of the first choice of a completion.
pub open spec fn holds_message(chat: JsonView, msg: JsonView) -> bool {
    member_of(chat, "choices"@) matches Some(JsonView::Array(cs)) && cs.len() > 0 && member_of(
        cs[0],
        "message"@,
    ) == Some(msg)
}

/// Each tool call of a completion becomes an output, in order, with the
/// identifier, the name and the arguments that the call has.
pub proof fn law_outputs_carry_the_calls(
    chat: JsonView,
    msg: JsonView,
    calls: Seq<JsonView>,
    i: int,
    f: JsonView,
    call_id: Seq<char>,
    name: Seq<char>,
    arguments: Seq<char>,
)
    requires
        holds_message(chat, msg),
        member_of(msg, "tool_calls"@) == Some(JsonView::Array(calls)),
        0 <= i < calls.len(),
        member_of(calls[i], "id"@) == Some(JsonView::Str(call_id)),
        member_of(calls[i], "function"@) == Some(f),
        member_of(f, "name"@) == Some(JsonView::Str(name)),
        member_of(f, "arguments"@) == Some(JsonView::Str(arguments)),
    ensures
        output_items(chat).len() >= calls.len(),
        output_items(chat)[i] matches ItemView::FunctionCall {
            id: _,
            call_id: c,
            name: n,
            arguments: a,
        } && c == call_id && n == name && a == arguments,
{
}

/// A completion has an output for each of its calls and, where it has text, one
/// more behind them: that text, with its annotations.
pub proof fn law_outputs_carry_the_text(chat: JsonView, msg: JsonView, text: Seq<char>)
    requires
        holds_message(chat, msg),
        member_of(msg, "content"@) == Some(JsonView::Str(text)),
    ensures
        ({
            let out = output_items(chat);
            &&& out.len() == message_calls(msg).len() + 1
            &&& out.last() matches ItemView::Message { id: _, texts } && texts.len() == 1
                && texts[0].text == text && texts[0].annotations == annotations_in(msg)
            &&& forall|i: int| 0 <= i < out.len() - 1 ==> #[trigger] out[i] is FunctionCall
        }),
{
}

/// Outputs of one completion have identifiers of their own.
pub proof fn law_outputs_are_told_apart(chat: JsonView, msg: JsonView, i: int, j: int)
    requires
        holds_message(chat, msg),
        0 <= i < j < message_calls(msg).len(),
    ensures
        output_items(chat)[i] matches ItemView::FunctionCall { id: a, .. } && output_items(
            chat,
        )[j] matches ItemView::FunctionCall { id: b, .. } && a != b,
{
    let id = chat_id(chat);
    let p = "fc_"@ + id + "_"@;
    let a = p + dec(i as nat);
    let b = p + dec(j as nat);
    assert(a.skip(p.len() as int) =~= dec(i as nat));
    assert(b.skip(p.len() as int) =~= dec(j as nat));
    law_numbers_read_back(i as nat, j as nat, 0);
}

/// A response tells what the completion told: its model, its time, and its
/// counts of tokens, with their details where they are whole.
pub proof fn law_response_tells_the_counts(
    r: ResponsesResponse,
    chat: JsonView,
    now: u64,
    u: JsonView,
    created: u64,
    model: Seq<char>,
    prompt: u64,
    completion: u64,
    total: u64,
)
    requires
        r.answers(chat, now),
        member_of(chat, "created"@) == Some(JsonView::Number(NumberView::Unsigned(created))),
        member_of(chat, "model"@) == Some(JsonView::Str(model)),
        member_of(chat, "usage"@) == Some(u),
        member_of(u, "prompt_tokens"@) == Some(JsonView::Number(NumberView::Unsigned(prompt))),
        member_of(u, "completion_tokens"@) == Some(
            JsonView::Number(NumberView::Unsigned(completion)),
        ),
        member_of(u, "total_tokens"@) == Some(JsonView::Number(NumberView::Unsigned(total))),
    ensures
        r.created_at == created,
        r.model@ == model,
        r.usage.input_tokens == prompt as usize,
        r.usage.output_tokens == completion as usize,
        r.usage.total_tokens == total as usize,
        item_views(r.output@) == output_items(chat),
        member_of(u, "prompt_tokens_details"@) matches Some(d) ==> r.usage.input_tokens_details
            == prompt_details_in(d),
        member_of(u, "completion_tokens_details"@) matches Some(d)
            ==> r.usage.output_tokens_details == completion_details_in(d),
        member_of(u, "prompt_tokens_details"@) is None ==> r.usage.input_tokens_details is None,
        member_of(u, "completion_tokens_details"@) is None
            ==> r.usage.output_tokens_details is None,
{
}

/// A completion that does not say when it was made is dated now, and one that
/// counts nothing has used nothing.
pub proof fn law_response_fills_in(r: ResponsesResponse, chat: JsonView, now: u64)
    requires
        r.answers(chat, now),
    ensures
        member_of(chat, "created"@) is None ==> r.created_at == now,
        member_of(chat, "usage"@) is None ==> r.usage.input_tokens == 0 && r.usage.output_tokens
            == 0 && r.usage.total_tokens == 0,
        member_of(chat, "choices"@) is None ==> r.output@.len() == 0,
{
    assert(item_views(r.output@).len() == r.output@.len());
}

/// The identifier of a response is that of its completion, under its own
/// prefix: two completions with different identifiers have different ones.
pub proof fn law_response_is_named_after_its_completion(
    r: ResponsesResponse,
    chat: JsonView,
    now: u64,
    name: Seq<char>,
)
    requires
        r.answers(chat, now),
        member_of(chat, "id"@) == Some(JsonView::Str("chatcmpl-"@ + name)),
        !starts_with(name, "chatcmpl-"@),
    ensures
        r.id@ == "resp_"@ + name,
{
    let p = "chatcmpl-"@;
    reveal_strlit("chatcmpl-");
    let s = p + name;
    reveal_with_fuel(without_prefix, 2);
    assert(s.subrange(0, p.len() as int) =~= p);
    assert(s.skip(p.len() as int) =~= name);
}

/// The assistant's message that is kept for the next turn says what the
/// completion said, and makes the calls that its outputs make.
pub proof fn law_kept_message_is_the_answer(
    chat: JsonView,
    msg: JsonView,
    calls: Seq<JsonView>,
    i: int,
)
    requires
        holds_message(chat, msg),
        member_of(msg, "tool_calls"@) == Some(JsonView::Array(calls)),
        calls_in(msg) is Some,
        0 <= i < calls.len(),
    ensures
        assistant_turn(chat) matches Some(m) && {
            &&& m.role == "assistant"@
            &&& member_of(msg, "content"@) matches Some(JsonView::Str(t)) ==> m.text == t
            &&& m.tool_calls matches Some(c) && c.len() == calls.len() && (output_items(
                chat,
            )[i] matches ItemView::FunctionCall { name, arguments, call_id, .. } && c[i].name == name
                && c[i].arguments == arguments && (c[i].id matches Some(id) ==> id == call_id))
        },
{
    law_calls_are_read(calls, i);
    reveal_strlit("");
    assert(""@ =~= Seq::<char>::empty());
}

/// A message without calls is kept with its text alone.
pub proof fn law_kept_text_is_the_answer(chat: JsonView, msg: JsonView, text: Seq<char>)
    requires
        holds_message(chat, msg),
        member_of(msg, "content"@) == Some(JsonView::Str(text)),
        member_of(msg, "tool_calls"@) is None,
    ensures
        assistant_turn(chat) matches Some(m) && m.role == "assistant"@ && m.text == text
            && m.tool_calls is None,
        assistant_text(chat) == text,
{
}

/// An item of a conversation stands for a message with its role and all its
/// text: the content itself, or the texts of its parts one after the other.
pub proof fn law_items_stand_for_messages(
    item: JsonView,
    role: Seq<char>,
    text: Seq<char>,
    parts: Seq<JsonView>,
    part: JsonView,
)
    requires
        member_of(item, "role"@) == Some(JsonView::Str(role)),
        member_of(part, "text"@) == Some(JsonView::Str(text)),
    ensures
        item_message(item) matches Some(m) && m.role == role,
        member_of(item, "content"@) == Some(JsonView::Str(text)) ==> (item_message(
            item,
        ) matches Some(m) && m.text == text),
        member_of(item, "content"@) == Some(JsonView::Array(parts.push(part))) ==> (item_message(
            item,
        ) matches Some(m) && m.text == concat_all(part_texts(parts)) + text),
        part_texts(Seq::empty()).len() == 0,
{
    assert(parts.push(part).drop_last() =~= parts);
    let before = part_texts(parts);
    assert(before.push(text).drop_last() =~= before);
}

/// The messages of a conversation are those of its items, in order; where every
/// item has a role, there is one for each.
pub proof fn law_conversation_is_its_items(items: Seq<JsonView>, i: int)
    requires
        forall|k: int| 0 <= k < items.len() ==> item_message(#[trigger] items[k]) is Some,
    ensures
        item_messages(items).len() == items.len(),
        0 <= i < items.len() ==> item_messages(items)[i] == item_message(items[i])->0,
    decreases items.len(),
{
    if items.len() > 0 {
        let less = items.drop_last();
        assert forall|k: int| 0 <= k < less.len() implies item_message(#[trigger] less[k]) is Some by {
            assert(less[k] == items[k]);
        }
        law_conversation_is_its_items(less, i);
        assert(item_message(items[items.len() - 1]) is Some);
        if 0 <= i < less.len() {
            assert(less[i] == items[i]);
        }
    }
}

/// A conversation is found by its identifier, given bare or in an object; what
/// is neither is the client's error.
pub proof fn law_conversations_are_named(id: Seq<char>, o: Seq<(Seq<char>, JsonView)>, b: bool)
    ensures
        conversation_named(None) == Ok::<Option<Seq<char>>, ErrorView>(None),
        conversation_named(Some(JsonView::Str(id))) == Ok::<Option<Seq<char>>, ErrorView>(
            Some(id),
        ),
        get(o, "id"@) == Some(JsonView::Str(id)) ==> conversation_named(Some(JsonView::Object(o)))
            == Ok::<Option<Seq<char>>, ErrorView>(Some(id)),
        conversation_named(Some(JsonView::Bool(b))) matches Err(e) && e.status == 400 && e.param
            == Some("conversation"@),
        conversation_missing(id, "x"@).status == 404,
{
}

/// What is wrong with a request is told in its own words.
pub proof fn law_refused_requests_are_told_why(e: LowerResponsesError)
    ensures
        lower_error(e).status == BAD_REQUEST,
        e matches LowerResponsesError::BadRequest(m) ==> lower_error(e).message == m@ && lower_error(
            e,
        ).param is None,
        e matches LowerResponsesError::PriorNotFound(m) ==> lower_error(e).message == m@
            && lower_error(e).param == Some("previous_response_id"@),
{
}

/// An event ends where two line feeds stand, and nowhere else.
pub proof fn law_events_end_at_blank_lines(a: Seq<u8>, b: Seq<u8>, i: int)
    ensures
        frame_end(a + seq![10u8, 10u8] + b, a.len() as int),
        frame_end(a, i) ==> 0 <= i && i + 2 <= a.len() && a.subrange(i, i + 2) == seq![10u8, 10u8],
{
    if frame_end(a, i) {
        assert(a.subrange(i, i + 2) =~= seq![10u8, 10u8]);
    }
}

/// The text of an answer is an output of its own, named after the completion,
/// behind its calls.
pub proof fn law_text_output_is_named(id: Seq<char>, msg: JsonView, text: Seq<char>)
    ensures
        text_field(msg, "content"@) == Some(text) ==> message_items(id, msg).len()
            == message_calls(msg).len() + 1 && (message_items(id, msg).last() matches ItemView::Message {
            id: i,
            texts,
        } && i == "msg_"@ + id && texts.len() == 1 && texts[0].text == text),
        text_field(msg, "content"@) is None ==> message_items(id, msg).len() == message_calls(
            msg,
        ).len(),
{
}

} // verus!

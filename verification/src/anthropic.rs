//! The messages API in front of the chat pipeline.
use vstd::prelude::*;
use crate::api_error::{BAD_REQUEST, INTERNAL_SERVER_ERROR};
use crate::chat::entries::{read_calls, MsgEntry};
use crate::chat::entries::{calls_json, entry_views, EntryView};
use crate::chat::template::json_messages;
use crate::chat::template::entry_json;
use crate::json::{no_members, no_values, object, push_member, push_value, Json};
use crate::json::{json_views, member_of, member_views, JsonView};
use crate::json_text::parse_json_bytes;
use crate::json_text::bytes_json;
use crate::messages::incoming_views;
use crate::responses::text_at;
use crate::responses::text_field;
use crate::text::{begins, own, same};
use crate::text::{contains, lemma_stands_between, opt_str, starts_with, views};
use crate::tools::{IncomingToolCall, ToolDefinition};
use crate::trim::join_strings;
use crate::trim::{join, law_parts_stand_in_their_join};
use vstd::utf8::{decode_utf8, valid_utf8};

verus! {

// ---------------------------------------------------------------------------
// Answers of the chat pipeline
// ---------------------------------------------------------------------------
/// The text of bytes, with a replacement character for what is no UTF-8.
pub uninterp spec fn lossy_text(bytes: Seq<u8>) -> Seq<char>;

/// `String::from_utf8_lossy`. Claimed: the text depends on the bytes alone and
/// has the name [`lossy_text`]; valid UTF-8 is decoded as it stands.
#[verifier::external_body]
fn from_lossy(bytes: &[u8]) -> (r: String)
    ensures
        r@ == lossy_text(bytes@),
        valid_utf8(bytes@) ==> r@ == decode_utf8(bytes@),
{
    String::from_utf8_lossy(bytes).into_owned()
}

/// The message in an error of the chat pipeline, where it is one.
pub open spec fn message_in(body: Option<JsonView>) -> Option<Seq<char>> {
    match body {
        Some(b) => match member_of(b, "error"@) {
            Some(e) => text_field(e, "message"@),
            None => None,
        },
        None => None,
    }
}

/// What a client is told of an error of the chat pipeline: its message, or its
/// body as it stands.
pub open spec fn inner_error(body: Option<JsonView>, text: Seq<char>) -> Seq<char> {
    match message_in(body) {
        Some(m) => m,
        None => text,
    }
}

/// Picks the message out of an error body, or `text` where there is none.
pub fn pick_message(body: Option<Json>, text: String) -> (r: String)
    ensures
        r@ == inner_error(
            match body {
                Some(b) => Some(b@),
                None => None,
            },
            text@,
        ),
{
    match body {
        Some(b) => match b.get("error") {
            Some(e) => match text_at(e, "message") {
                Some(m) => own(m.as_str()),
                None => text,
            },
            None => text,
        },
        None => text,
    }
}

/// What a client is told of an error body of the chat pipeline.
pub fn inner_error_message(body: &[u8]) -> (r: String)
    ensures
        r@ == inner_error(bytes_json(body@), lossy_text(body@)),
        bytes_json(body@) is None && valid_utf8(body@) ==> r@ == decode_utf8(body@),
{
    let parsed = parse_json_bytes(body);
    pick_message(parsed, from_lossy(body))
}

/// What is made of an answer of the chat pipeline.
#[derive(Debug, Clone, Copy, PartialEq, Eq, Structural)]
pub enum Reply {
    /// Its error, in the shape of this API.
    Error,
    /// Its events, each in the shape of this API.
    Events,
    /// Its body, in the shape of this API.
    Body,
}

/// Says what is made of an answer of the chat pipeline.
pub fn reply_kind(status: u16, stream: bool) -> (r: Reply)
    ensures
        r == if !(200 <= status < 300) {
            Reply::Error
        } else if stream {
            Reply::Events
        } else {
            Reply::Body
        },
{
    if status < 200 || status >= 300 {
        Reply::Error
    } else if stream {
        Reply::Events
    } else {
        Reply::Body
    }
}

/// An error in the shape of this API.
#[derive(Debug)]
pub struct MessagesError {
    /// The HTTP status.
    pub status: u16,
    pub kind: String,
    pub message: String,
}

impl MessagesError {
    /// The error says this.
    pub open spec fn says(self, status: u16, kind: Seq<char>, message: Seq<char>) -> bool {
        self.status == status && self.kind@ == kind && self.message@ == message
    }

    /// An error whose message has two parts.
    fn of_parts(status: u16, kind: &str, head: &str, rest: &str) -> (r: MessagesError)
        ensures
            r.says(status, kind@, head@ + rest@),
    {
        let mut message = own(head);
        message.append(rest);
        MessagesError { status, kind: own(kind), message }
    }

    /// The error of a body that is not what was asked for.
    pub fn invalid_json(error: &str) -> (r: MessagesError)
        ensures
            r.says(BAD_REQUEST, "invalid_request_error"@, "Invalid request JSON: "@ + error@),
    {
        MessagesError::of_parts(BAD_REQUEST, "invalid_request_error", "Invalid request JSON: ", error)
    }

    /// The error of a request that has no counterpart in the chat pipeline.
    pub fn untranslatable(error: &str) -> (r: MessagesError)
        ensures
            r.says(BAD_REQUEST, "invalid_request_error"@, "Translation error: "@ + error@),
    {
        MessagesError::of_parts(BAD_REQUEST, "invalid_request_error", "Translation error: ", error)
    }
}

/// The chat pipeline succeeded.
pub open spec fn succeeded(status: u16) -> bool {
    200 <= status < 300
}

/// Takes the collected answer of the chat pipeline, or the error of collecting
/// it. What comes out is the completion, to be put in the shape of this API.
/// `decode_error` says why the answer is no JSON, where it is none.
pub fn take_reply(status: u16, collected: Result<&[u8], String>, decode_error: &str) -> (r: Result<
    Json,
    MessagesError,
>)
    ensures
        match collected {
            Err(e) => r matches Err(m) && m.says(
                INTERNAL_SERVER_ERROR,
                "api_error"@,
                if succeeded(status) {
                    "Body collect error: "@ + e@
                } else {
                    "Error body collect: "@ + e@
                },
            ),
            Ok(body) => if !succeeded(status) {
                r matches Err(m) && m.says(
                    status,
                    "api_error"@,
                    inner_error(bytes_json(body@), lossy_text(body@)),
                )
            } else {
                match bytes_json(body@) {
                    Some(chat) => r matches Ok(j) && j@ == chat,
                    None => r matches Err(m) && m.says(
                        INTERNAL_SERVER_ERROR,
                        "api_error"@,
                        "Inner response decode error: "@ + decode_error@,
                    ),
                }
            },
        },
{
    let good = 200 <= status && status < 300;
    match collected {
        Err(e) => {
            let head = if good {
                "Body collect error: "
            } else {
                "Error body collect: "
            };
            Err(MessagesError::of_parts(INTERNAL_SERVER_ERROR, "api_error", head, e.as_str()))
        },
        Ok(body) => {
            if !good {
                let message = inner_error_message(body);
                return Err(MessagesError { status, kind: own("api_error"), message });
            }
            match parse_json_bytes(body) {
                Some(chat) => Ok(chat),
                None => Err(
                    MessagesError::of_parts(
                        INTERNAL_SERVER_ERROR,
                        "api_error",
                        "Inner response decode error: ",
                        decode_error,
                    ),
                ),
            }
        },
    }
}

// ---------------------------------------------------------------------------
// Counting tokens
// ---------------------------------------------------------------------------
/// What decides whether the model thinks.
#[derive(Debug, Clone, Copy)]
pub struct CountPolicy {
    /// Thinking is off for every request.
    pub disable_thinking: bool,
    /// The model thinks unless told otherwise.
    pub thinking_default: bool,
    /// The model thinks, unless told otherwise, with tools at hand.
    pub thinking_in_tools: bool,
}

/// Whether the model thinks: never where that is off; as the client says, where
/// it says; else as the model does, with tools or without.
pub open spec fn thinks(policy: CountPolicy, asked: Option<Seq<char>>, tools_active: bool) -> bool {
    if policy.disable_thinking {
        false
    } else if asked is None && tools_active && !policy.thinking_in_tools {
        false
    } else if asked == Some("enabled"@) {
        true
    } else if asked == Some("disabled"@) {
        false
    } else {
        policy.thinking_default
    }
}

/// Computes [`thinks`].
pub fn count_thinking(policy: CountPolicy, asked: Option<&str>, tools_active: bool) -> (r: bool)
    ensures
        r == thinks(policy, opt_str(asked), tools_active),
{
    if policy.disable_thinking {
        return false;
    }
    match asked {
        Some(kind) => {
            if same(kind, "enabled") {
                true
            } else if same(kind, "disabled") {
                false
            } else {
                policy.thinking_default
            }
        },
        None => {
            if tools_active && !policy.thinking_in_tools {
                false
            } else {
                policy.thinking_default
            }
        },
    }
}

/// What is said for the client to the model before the conversation.
#[derive(Debug)]
pub enum SystemContent {
    Text(String),
    /// Blocks, each with its type and its text.
    Blocks(Vec<(String, Option<String>)>),
}

/// A block is part of the system message: a text, and no header of the
/// client's own.
pub open spec fn block_text(b: (String, Option<String>)) -> Option<Seq<char>> {
    match b.1 {
        Some(t) => if b.0@ == "text"@ && !starts_with(t@, "x-anthropic-"@) {
            Some(t@)
        } else {
            None
        },
        None => None,
    }
}

/// The texts of the blocks of a system message.
pub open spec fn block_texts(s: Seq<(String, Option<String>)>) -> Seq<Seq<char>>
    decreases s.len(),
{
    if s.len() == 0 {
        Seq::empty()
    } else {
        let head = block_texts(s.drop_last());
        match block_text(s.last()) {
            Some(t) => head.push(t),
            None => head,
        }
    }
}

/// The text of a system message.
pub open spec fn system_text(s: SystemContent) -> Seq<char> {
    match s {
        SystemContent::Text(t) => t@,
        SystemContent::Blocks(b) => join(block_texts(b@), "\n"@),
    }
}

/// Computes [`system_text`].
pub fn read_system(s: &SystemContent) -> (r: String)
    ensures
        r@ == system_text(*s),
{
    match s {
        SystemContent::Text(t) => t.clone(),
        SystemContent::Blocks(blocks) => {
            let mut parts: Vec<String> = Vec::new();
            let mut i: usize = 0;
            assert(views(parts@) =~= block_texts(blocks@.take(0)));
            while i < blocks.len()
                invariant
                    i <= blocks@.len(),
                    views(parts@) == block_texts(blocks@.take(i as int)),
                decreases blocks@.len() - i,
            {
                assert(blocks@.take(i + 1).drop_last() =~= blocks@.take(i as int));
                match &blocks[i].1 {
                    Some(t) => {
                        if same(blocks[i].0.as_str(), "text") && !begins(
                            t.as_str(),
                            "x-anthropic-",
                        ) {
                            let ghost before = parts@;
                            parts.push(t.clone());
                            assert(views(parts@) =~= views(before).push(t@));
                        }
                    },
                    None => {},
                }
                i += 1;
            }
            assert(blocks@.take(i as int) =~= blocks@);
            join_strings(&parts, "\n")
        },
    }
}

/// A block of a message.
#[derive(Debug)]
pub enum ContentBlock {
    Text(String),
    /// The text of a tool's result.
    ToolResult(String),
    Other,
}

/// A message whose tokens are counted.
#[derive(Debug)]
pub struct CountMessage {
    /// Who speaks.
    pub role: String,
    /// The message as one text.
    pub text: String,
    /// The calls in it.
    pub calls: Vec<IncomingToolCall>,
    /// Its blocks, where it has blocks.
    pub blocks: Option<Vec<ContentBlock>>,
}

/// What holds of all messages whose tokens are counted.
#[derive(Debug, Clone, Copy)]
pub struct CountContext {
    /// Tools are at hand.
    pub tools_active: bool,
    /// The model can think.
    pub supports_thinking: bool,
}

/// An entry without images.
pub open spec fn text_entry(
    role: Seq<char>,
    content: Seq<char>,
    calls: Option<Seq<JsonView>>,
) -> EntryView {
    EntryView { role, content, tool_calls: calls, image_count: 0, failures_in_a_row: 0 }
}

/// Computes [`text_entry`].
fn build_entry(role: &str, content: String, calls: Option<Vec<Json>>) -> (r: MsgEntry)
    ensures
        r@ == text_entry(
            role@,
            content@,
            match calls {
                Some(c) => Some(json_views(c@)),
                None => None,
            },
        ),
{
    MsgEntry {
        role: own(role),
        content,
        tool_calls: calls,
        image_count: 0,
        failures_in_a_row: 0,
    }
}

/// One of the blocks is a tool's result.
pub open spec fn has_result(b: Seq<ContentBlock>) -> bool {
    exists|i: int| 0 <= i < b.len() && #[trigger] b[i] is ToolResult
}

/// The entries of blocks among which are tool results: each result speaks for
/// its tool, each text for the user.
pub open spec fn result_entries(b: Seq<ContentBlock>) -> Seq<EntryView>
    decreases b.len(),
{
    if b.len() == 0 {
        Seq::empty()
    } else {
        let head = result_entries(b.drop_last());
        match b.last() {
            ContentBlock::ToolResult(t) => head.push(text_entry("tool"@, t@, None)),
            ContentBlock::Text(t) => if t@.len() > 0 {
                head.push(text_entry("user"@, t@, None))
            } else {
                head
            },
            ContentBlock::Other => head,
        }
    }
}

/// The entry of a message without tool results.
pub open spec fn plain_entry(ctx: CountContext, m: CountMessage) -> EntryView {
    if m.role@ == "assistant"@ {
        text_entry(
            "assistant"@,
            if ctx.supports_thinking {
                "<think>\n\n</think>\n\n"@ + m.text@
            } else {
                m.text@
            },
            if ctx.tools_active && m.calls@.len() > 0 {
                Some(calls_json(incoming_views(m.calls@)))
            } else {
                None
            },
        )
    } else {
        text_entry("user"@, m.text@, None)
    }
}

/// A message hands over tool results.
pub open spec fn hands_over(ctx: CountContext, m: CountMessage) -> bool {
    ctx.tools_active && m.role@ != "assistant"@ && (m.blocks matches Some(b) && has_result(b@))
}

/// The entries of a message.
pub open spec fn message_entries(ctx: CountContext, m: CountMessage) -> Seq<EntryView> {
    if hands_over(ctx, m) {
        result_entries(m.blocks->Some_0@)
    } else {
        seq![plain_entry(ctx, m)]
    }
}

/// The entries of messages.
pub open spec fn all_entries(ctx: CountContext, ms: Seq<CountMessage>) -> Seq<EntryView>
    decreases ms.len(),
{
    if ms.len() == 0 {
        Seq::empty()
    } else {
        all_entries(ctx, ms.drop_last()) + message_entries(ctx, ms.last())
    }
}

/// The entries whose tokens are counted.
pub open spec fn count_entries(
    ctx: CountContext,
    system: Option<SystemContent>,
    ms: Seq<CountMessage>,
) -> Seq<EntryView> {
    (match system {
        Some(s) => seq![text_entry("system"@, system_text(s), None)],
        None => Seq::empty(),
    }) + all_entries(ctx, ms)
}

/// Says whether one of the blocks is a tool's result.
fn some_result(b: &Vec<ContentBlock>) -> (r: bool)
    ensures
        r == has_result(b@),
{
    let mut i: usize = 0;
    while i < b.len()
        invariant
            i <= b@.len(),
            forall|k: int| 0 <= k < i ==> !(#[trigger] b@[k] is ToolResult),
        decreases b@.len() - i,
    {
        match &b[i] {
            ContentBlock::ToolResult(_) => {
                assert(b@[i as int] is ToolResult);
                return true;
            },
            _ => {},
        }
        i += 1;
    }
    false
}

/// Puts an entry behind others.
fn push_entry(out: &mut Vec<MsgEntry>, e: MsgEntry)
    ensures
        entry_views(final(out)@) == entry_views(old(out)@).push(e@),
{
    let ghost before = out@;
    let ghost ev = e@;
    out.push(e);
    assert(entry_views(out@) =~= entry_views(before).push(ev));
}

/// Puts the entries of blocks behind others.
fn push_results(out: &mut Vec<MsgEntry>, b: &Vec<ContentBlock>)
    ensures
        entry_views(final(out)@) == entry_views(old(out)@) + result_entries(b@),
{
    let ghost start = entry_views(out@);
    let mut i: usize = 0;
    assert(start + result_entries(b@.take(0)) =~= start);
    while i < b.len()
        invariant
            i <= b@.len(),
            entry_views(out@) == start + result_entries(b@.take(i as int)),
        decreases b@.len() - i,
    {
        assert(b@.take(i + 1).drop_last() =~= b@.take(i as int));
        let ghost head = result_entries(b@.take(i as int));
        match &b[i] {
            ContentBlock::ToolResult(t) => {
                push_entry(out, build_entry("tool", t.clone(), None));
            },
            ContentBlock::Text(t) => {
                if !t.as_str().is_empty() {
                    push_entry(out, build_entry("user", t.clone(), None));
                }
            },
            ContentBlock::Other => {},
        }
        i += 1;
        assert(entry_views(out@) =~= start + result_entries(b@.take(i as int)));
    }
    assert(b@.take(i as int) =~= b@);
}

/// Computes [`plain_entry`].
fn build_plain(ctx: CountContext, m: &CountMessage) -> (r: MsgEntry)
    ensures
        r@ == plain_entry(ctx, *m),
{
    if same(m.role.as_str(), "assistant") {
        let mut text = own("");
        proof {
            reveal_strlit("");
        }
        if ctx.supports_thinking {
            text.append("<think>\n\n</think>\n\n");
        }
        let ghost head = text@;
        text.append(m.text.as_str());
        assert(text@ =~= plain_entry(ctx, *m).content);
        let calls = if ctx.tools_active && m.calls.len() > 0 {
            Some(read_calls(&m.calls))
        } else {
            None
        };
        build_entry("assistant", text, calls)
    } else {
        build_entry("user", m.text.clone(), None)
    }
}

/// Computes [`count_entries`]: what goes into the chat template.
pub fn build_count_entries(
    ctx: CountContext,
    system: Option<&SystemContent>,
    messages: &Vec<CountMessage>,
) -> (r: Vec<MsgEntry>)
    ensures
        entry_views(r@) == count_entries(
            ctx,
            match system {
                Some(s) => Some(*s),
                None => None,
            },
            messages@,
        ),
{
    let mut out: Vec<MsgEntry> = Vec::new();
    assert(entry_views(out@) =~= Seq::empty());
    match system {
        Some(s) => {
            push_entry(&mut out, build_entry("system", read_system(s), None));
        },
        None => {},
    }
    let ghost start = entry_views(out@);
    let mut i: usize = 0;
    assert(start + all_entries(ctx, messages@.take(0)) =~= start);
    while i < messages.len()
        invariant
            i <= messages@.len(),
            entry_views(out@) == start + all_entries(ctx, messages@.take(i as int)),
        decreases messages@.len() - i,
    {
        assert(messages@.take(i + 1).drop_last() =~= messages@.take(i as int));
        let m = &messages[i];
        let mut handed = false;
        if ctx.tools_active && !same(m.role.as_str(), "assistant") {
            match &m.blocks {
                Some(b) => {
                    if some_result(b) {
                        push_results(&mut out, b);
                        handed = true;
                    }
                },
                None => {},
            }
        }
        assert(handed == hands_over(ctx, *m));
        if !handed {
            push_entry(&mut out, build_plain(ctx, m));
        }
        i += 1;
        assert(entry_views(out@) =~= start + all_entries(ctx, messages@.take(i as int)));
    }
    assert(messages@.take(i as int) =~= messages@);
    assert(entry_views(out@) =~= count_entries(
        ctx,
        match system {
            Some(s) => Some(*s),
            None => None,
        },
        messages@,
    ));
    out
}

/// A tool as the chat template takes it.
pub open spec fn tool_json(t: ToolDefinition) -> JsonView {
    JsonView::Object(
        seq![
            ("type"@, JsonView::Str("function"@)),
            (
                "function"@,
                JsonView::Object(
                    seq![
                        ("name"@, JsonView::Str(t.function.name@)),
                        (
                            "description"@,
                            match t.function.description {
                                Some(d) => JsonView::Str(d@),
                                None => JsonView::Null,
                            },
                        ),
                        (
                            "parameters"@,
                            match t.function.parameters {
                                Some(p) => p@,
                                None => JsonView::Null,
                            },
                        ),
                    ],
                ),
            ),
        ],
    )
}

/// Computes [`tool_json`].
fn build_tool(t: &ToolDefinition) -> (r: Json)
    ensures
        r@ == tool_json(*t),
{
    let ghost want = tool_json(*t)->Object_0;
    let mut f = no_members();
    push_member(&mut f, "name", Json::text(t.function.name.as_str()));
    let description = match &t.function.description {
        Some(d) => Json::text(d.as_str()),
        None => Json::Null,
    };
    push_member(&mut f, "description", description);
    let parameters = match &t.function.parameters {
        Some(p) => p.copy(),
        None => Json::Null,
    };
    push_member(&mut f, "parameters", parameters);
    assert(member_views(f@) =~= want[1].1->Object_0);
    let mut o = no_members();
    push_member(&mut o, "type", Json::text("function"));
    push_member(&mut o, "function", object(f));
    assert(member_views(o@) =~= want);
    object(o)
}

/// The tools as the chat template takes them.
pub fn build_count_tools(tools: &Vec<ToolDefinition>) -> (r: Vec<Json>)
    ensures
        json_views(r@) == tools@.map_values(|t: ToolDefinition| tool_json(t)),
{
    let ghost want = tools@.map_values(|t: ToolDefinition| tool_json(t));
    let mut out = no_values();
    let mut i: usize = 0;
    assert(json_views(out@) =~= want.take(0));
    while i < tools.len()
        invariant
            i <= tools@.len(),
            want == tools@.map_values(|t: ToolDefinition| tool_json(t)),
            json_views(out@) == want.take(i as int),
        decreases tools@.len() - i,
    {
        push_value(&mut out, build_tool(&tools[i]));
        i += 1;
        assert(json_views(out@) =~= want.take(i as int));
    }
    assert(want.take(i as int) =~= want);
    out
}

/// What the server knows when tokens are to be counted.
#[derive(Debug, Clone, Copy)]
pub struct CountServer {
    /// The model has a tool-call parser.
    pub has_parser: bool,
    /// The model can think.
    pub supports_thinking: bool,
    pub policy: CountPolicy,
}

/// What goes into the chat template.
#[derive(Debug)]
pub struct CountPrompt {
    pub messages: Vec<Json>,
    pub tools: Option<Vec<Json>>,
    pub enable_thinking: bool,
}

/// Tools are at hand: the model can call some, and there are some.
pub open spec fn tools_at_hand(server: CountServer, tools: Option<Vec<ToolDefinition>>) -> bool {
    server.has_parser && (tools matches Some(t) && t@.len() > 0)
}

/// Makes what goes into the chat template out of a request whose tokens are to
/// be counted.
pub fn count_tokens(
    server: CountServer,
    asked: Option<&str>,
    system: Option<&SystemContent>,
    messages: &Vec<CountMessage>,
    tools: &Option<Vec<ToolDefinition>>,
) -> (r: CountPrompt)
    ensures
        ({
            let active = tools_at_hand(server, *tools);
            let ctx = CountContext {
                tools_active: active,
                supports_thinking: server.supports_thinking,
            };
            let sys = match system {
                Some(s) => Some(*s),
                None => None,
            };
            &&& json_views(r.messages@) == count_entries(ctx, sys, messages@).map_values(
                |e: EntryView| entry_json(e),
            )
            &&& match (*tools, r.tools) {
                (Some(t), Some(j)) => active && json_views(j@) == t@.map_values(
                    |d: ToolDefinition| tool_json(d),
                ),
                (_, None) => !active,
                (None, Some(_)) => false,
            }
            &&& r.enable_thinking == thinks(server.policy, opt_str(asked), active)
        }),
{
    let tools_active = server.has_parser && (match tools {
        Some(t) => t.len() > 0,
        None => false,
    });
    let ctx = CountContext { tools_active, supports_thinking: server.supports_thinking };
    let entries = build_count_entries(ctx, system, messages);
    let offered = match tools {
        Some(t) => if tools_active {
            Some(build_count_tools(t))
        } else {
            None
        },
        None => None,
    };
    CountPrompt {
        messages: json_messages(&entries),
        tools: offered,
        enable_thinking: count_thinking(server.policy, asked, tools_active),
    }
}

/// The body that gives a count of tokens: none where the prompt could not be
/// made.
pub fn build_count_body(tokens: Option<usize>) -> (r: Json)
    ensures
        r@ == JsonView::Object(
            seq![
                (
                    "input_tokens"@,
                    JsonView::Number(
                        crate::json::NumberView::Unsigned(
                            match tokens {
                                Some(n) => n as u64,
                                None => 0,
                            },
                        ),
                    ),
                ),
            ],
        ),
{
    let n: u64 = match tokens {
        Some(n) => n as u64,
        None => 0,
    };
    let mut o = no_members();
    push_member(&mut o, "input_tokens", Json::number(n));
    assert(member_views(o@) =~= seq![
        ("input_tokens"@, JsonView::Number(crate::json::NumberView::Unsigned(n))),
    ]);
    object(o)
}

/// Thinking that is off stays off, whatever the client says.
pub proof fn law_off_is_off(policy: CountPolicy, asked: Option<Seq<char>>, tools_active: bool)
    requires
        policy.disable_thinking,
    ensures
        !thinks(policy, asked, tools_active),
{
}

/// Without tools at hand, every message is counted as one entry.
pub proof fn law_one_entry_each(ctx: CountContext, ms: Seq<CountMessage>)
    requires
        !ctx.tools_active,
    ensures
        all_entries(ctx, ms).len() == ms.len(),
    decreases ms.len(),
{
    if ms.len() > 0 {
        law_one_entry_each(ctx, ms.drop_last());
    }
}

proof fn lemma_entries_of(ctx: CountContext, ms: Seq<CountMessage>, i: int, e: EntryView)
    requires
        0 <= i < ms.len(),
        message_entries(ctx, ms[i]).contains(e),
    ensures
        all_entries(ctx, ms).contains(e),
    decreases ms.len(),
{
    let less = ms.drop_last();
    let before = all_entries(ctx, less);
    let last = message_entries(ctx, ms.last());
    if i < less.len() {
        assert(less[i] == ms[i]);
        lemma_entries_of(ctx, less, i, e);
        let k = choose|k: int| 0 <= k < before.len() && before[k] == e;
        assert((before + last)[k] == e);
    } else {
        let k = choose|k: int| 0 <= k < last.len() && last[k] == e;
        assert((before + last)[before.len() + k] == e);
    }
}

proof fn lemma_block_entries(b: Seq<ContentBlock>, j: int)
    requires
        0 <= j < b.len(),
    ensures
        b[j] matches ContentBlock::ToolResult(t) ==> result_entries(b).contains(
            text_entry("tool"@, t@, None),
        ),
        b[j] matches ContentBlock::Text(t) ==> (t@.len() > 0 ==> result_entries(b).contains(
            text_entry("user"@, t@, None),
        )),
    decreases b.len(),
{
    let less = b.drop_last();
    let before = result_entries(less);
    let all = result_entries(b);
    if j < less.len() {
        assert(less[j] == b[j]);
        lemma_block_entries(less, j);
        assert forall|e: EntryView| before.contains(e) implies all.contains(e) by {
            let k = choose|k: int| 0 <= k < before.len() && before[k] == e;
            assert(all[k] == e);
        }
    } else if all.len() > before.len() {
        assert(all[before.len() as int] == all.last());
    }
}

/// Every message is counted, with all its text: a plain one as an entry of its
/// own, and one that hands over the results of tools with an entry for each
/// result and each text in it.
pub proof fn law_every_message_is_counted(
    ctx: CountContext,
    system: Option<SystemContent>,
    ms: Seq<CountMessage>,
    i: int,
    j: int,
)
    requires
        0 <= i < ms.len(),
    ensures
        ({
            let all = count_entries(ctx, system, ms);
            &&& ms[i].role@ != "assistant"@ && !hands_over(ctx, ms[i]) ==> all.contains(
                text_entry("user"@, ms[i].text@, None),
            )
            &&& hands_over(ctx, ms[i]) && 0 <= j < ms[i].blocks->0@.len() ==> match ms[i].blocks->0@[j] {
                ContentBlock::ToolResult(t) => all.contains(text_entry("tool"@, t@, None)),
                ContentBlock::Text(t) => t@.len() > 0 ==> all.contains(
                    text_entry("user"@, t@, None),
                ),
                ContentBlock::Other => true,
            }
            &&& ms[i].role@ == "assistant"@ ==> exists|e: EntryView| #[trigger]
                all.contains(e) && e.role == "assistant"@ && contains(e.content, ms[i].text@) && (
                ctx.tools_active && ms[i].calls@.len() > 0 ==> (e.tool_calls matches Some(c)
                    && c.len() == ms[i].calls@.len())) && (!ctx.tools_active
                || ms[i].calls@.len() == 0 ==> e.tool_calls is None)
        }),
{
    let all = count_entries(ctx, system, ms);
    let own_entries = message_entries(ctx, ms[i]);
    let rest = all_entries(ctx, ms);
    let head = all.len() - rest.len();
    assert forall|e: EntryView| own_entries.contains(e) implies all.contains(e) by {
        lemma_entries_of(ctx, ms, i, e);
        let k = choose|k: int| 0 <= k < rest.len() && rest[k] == e;
        assert(all[head + k] == e);
    }
    if hands_over(ctx, ms[i]) {
        if 0 <= j < ms[i].blocks->0@.len() {
            lemma_block_entries(ms[i].blocks->0@, j);
        }
    } else {
        let e = plain_entry(ctx, ms[i]);
        assert(own_entries[0] == e);
        assert(own_entries.contains(e));
        let none = Seq::<char>::empty();
        lemma_stands_between("<think>\n\n</think>\n\n"@, ms[i].text@, none);
        assert("<think>\n\n</think>\n\n"@ + ms[i].text@ + none =~= "<think>\n\n</think>\n\n"@
            + ms[i].text@);
        lemma_stands_between(none, ms[i].text@, none);
        assert(none + ms[i].text@ + none =~= ms[i].text@);
        assert(all.contains(e));
    }
}

proof fn lemma_block_texts(s: Seq<(String, Option<String>)>, j: int)
    requires
        0 <= j < s.len(),
        block_text(s[j]) is Some,
    ensures
        block_texts(s).contains(block_text(s[j])->0),
    decreases s.len(),
{
    let less = s.drop_last();
    let before = block_texts(less);
    let all = block_texts(s);
    if j < less.len() {
        assert(less[j] == s[j]);
        lemma_block_texts(less, j);
        let k = choose|k: int| 0 <= k < before.len() && before[k] == block_text(s[j])->0;
        assert(all[k] == before[k]);
    } else {
        assert(all[before.len() as int] == block_text(s[j])->0);
    }
}

/// The system prompt is counted first, whole: a plain text as it is, and of
/// blocks every text that is not a note of the client's to its own server.
pub proof fn law_system_prompt_is_counted(
    ctx: CountContext,
    system: SystemContent,
    ms: Seq<CountMessage>,
    j: int,
)
    ensures
        ({
            let all = count_entries(ctx, Some(system), ms);
            &&& all.len() == 1 + count_entries(ctx, None, ms).len()
            &&& all[0].role == "system"@
            &&& system matches SystemContent::Text(t) ==> all[0].content == t@
            &&& system matches SystemContent::Blocks(b) ==> (0 <= j < b@.len() && b@[j].0@
                == "text"@ && (b@[j].1 matches Some(t) && !starts_with(t@, "x-anthropic-"@))
                ==> contains(all[0].content, b@[j].1->0@))
        }),
{
    if let SystemContent::Blocks(b) = system {
        if 0 <= j < b@.len() && block_text(b@[j]) is Some {
            lemma_block_texts(b@, j);
            let parts = block_texts(b@);
            let k = choose|k: int| 0 <= k < parts.len() && parts[k] == block_text(b@[j])->0;
            law_parts_stand_in_their_join(parts, "\n"@, k);
        }
    }
}

/// A client's word on thinking is taken, where thinking is not off; without one
/// the model does what it does, but with tools at hand only what it is meant to.
pub proof fn law_word_on_thinking_is_taken(policy: CountPolicy, tools_active: bool)
    requires
        !policy.disable_thinking,
    ensures
        thinks(policy, Some("enabled"@), tools_active),
        !thinks(policy, Some("disabled"@), tools_active),
        thinks(policy, None, tools_active) == (policy.thinking_default && (!tools_active
            || policy.thinking_in_tools)),
{
    reveal_strlit("enabled");
    reveal_strlit("disabled");
    assert("enabled"@.len() != "disabled"@.len());
}

/// An error of the chat pipeline is told in its own words, where it has some.
pub proof fn law_inner_error_is_told(b: JsonView, e: JsonView, m: Seq<char>, text: Seq<char>)
    ensures
        member_of(b, "error"@) == Some(e) && member_of(e, "message"@) == Some(JsonView::Str(m))
            ==> inner_error(Some(b), text) == m,
        member_of(b, "error"@) is None ==> inner_error(Some(b), text) == text,
        inner_error(None, text) == text,
{
}

/// A tool reaches the template with its name, what it is for and what it takes.
pub proof fn law_counted_tools_are_whole(t: ToolDefinition)
    ensures
        ({
            let j = tool_json(t);
            &&& member_of(j, "type"@) == Some(JsonView::Str("function"@))
            &&& member_of(j, "function"@) matches Some(f) && member_of(f, "name"@) == Some(
                JsonView::Str(t.function.name@),
            ) && (t.function.description matches Some(d) ==> member_of(f, "description"@) == Some(
                JsonView::Str(d@),
            )) && (t.function.parameters matches Some(p) ==> member_of(f, "parameters"@) == Some(
                p@,
            ))
        }),
{
    reveal_strlit("type");
    reveal_strlit("function");
    reveal_strlit("name");
    reveal_strlit("description");
    reveal_strlit("parameters");
    assert("type"@.len() == 4 && "function"@.len() == 8);
    assert("name"@.len() == 4 && "description"@.len() == 11 && "parameters"@.len() == 10);
    reveal_with_fuel(crate::json::key_at, 4);
}

/// An answer is good where its status is of the two hundreds; tools are at hand
/// where the model can call them and there are some.
pub proof fn law_good_answers_and_tools(
    status: u16,
    server: CountServer,
    tools: Option<Vec<ToolDefinition>>,
)
    ensures
        succeeded(status) <==> status / 100 == 2,
        tools is None ==> !tools_at_hand(server, tools),
        tools matches Some(t) ==> (t@.len() == 0 ==> !tools_at_hand(server, tools)),
        !server.has_parser ==> !tools_at_hand(server, tools),
        server.has_parser ==> (tools matches Some(t) ==> (t@.len() > 0 ==> tools_at_hand(
            server,
            tools,
        ))),
{
}

/// An error says its status, its kind and its message.
pub proof fn law_errors_say_what_they_say(
    e: MessagesError,
    status: u16,
    kind: Seq<char>,
    message: Seq<char>,
)
    requires
        e.says(status, kind, message),
    ensures
        e.status == status,
        e.kind@ == kind,
        e.message@ == message,
{
}

} // verus!

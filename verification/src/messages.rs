//! The messages of a conversation.
use vstd::prelude::*;
use crate::text::views;
use crate::tools::{copy_opt, IncomingToolCall};
use crate::tools::{opt_view, CallView};

verus! {

/// The content of a message: its text and the images that go with it.
#[derive(Debug)]
pub struct ParsedContent {
    pub text: String,
    pub images: Vec<String>,
}

/// A message as a request carries it.
#[derive(Debug)]
pub struct IncomingMessage {
    pub role: String,
    pub content: ParsedContent,
    pub tool_calls: Option<Vec<IncomingToolCall>>,
    pub tool_call_id: Option<String>,
    pub name: Option<String>,
}

/// What an [`IncomingMessage`] says.
#[verifier::ext_equal]
pub struct MessageView {
    pub role: Seq<char>,
    pub text: Seq<char>,
    pub images: Seq<Seq<char>>,
    pub tool_calls: Option<Seq<CallView>>,
    pub tool_call_id: Option<Seq<char>>,
    pub name: Option<Seq<char>>,
}

/// What a sequence of tool calls says.
pub open spec fn incoming_views(s: Seq<IncomingToolCall>) -> Seq<CallView> {
    s.map_values(|c: IncomingToolCall| c@)
}

impl View for IncomingMessage {
    type V = MessageView;

    open spec fn view(&self) -> MessageView {
        MessageView {
            role: self.role@,
            text: self.content.text@,
            images: views(self.content.images@),
            tool_calls: match self.tool_calls {
                Some(c) => Some(incoming_views(c@)),
                None => None,
            },
            tool_call_id: opt_view(self.tool_call_id),
            name: opt_view(self.name),
        }
    }
}

/// What a sequence of messages says.
pub open spec fn message_views(s: Seq<IncomingMessage>) -> Seq<MessageView> {
    s.map_values(|m: IncomingMessage| m@)
}

/// A message with a role and a text and nothing else.
pub open spec fn plain_message(role: Seq<char>, text: Seq<char>) -> MessageView {
    MessageView {
        role,
        text,
        images: Seq::empty(),
        tool_calls: None,
        tool_call_id: None,
        name: None,
    }
}

/// A tool result with a text, answering the call with this id.
pub open spec fn tool_message(text: Seq<char>, id: Seq<char>) -> MessageView {
    MessageView { tool_call_id: Some(id), ..plain_message("tool"@, text) }
}

/// Pushing a message pushes its view.
pub broadcast proof fn lemma_message_views_push(s: Seq<IncomingMessage>, m: IncomingMessage)
    ensures
        #[trigger] message_views(s.push(m)) == message_views(s).push(m@),
{
    assert(message_views(s.push(m)) =~= message_views(s).push(m@));
}

/// Inserting a message inserts its view.
pub broadcast proof fn lemma_message_views_insert(
    s: Seq<IncomingMessage>,
    i: int,
    m: IncomingMessage,
)
    requires
        0 <= i <= s.len(),
    ensures
        #[trigger] message_views(s.insert(i, m)) == message_views(s).insert(i, m@),
{
    assert(message_views(s.insert(i, m)) =~= message_views(s).insert(i, m@));
}

/// Replacing a message replaces its view.
pub broadcast proof fn lemma_message_views_update(
    s: Seq<IncomingMessage>,
    i: int,
    m: IncomingMessage,
)
    requires
        0 <= i < s.len(),
    ensures
        #[trigger] message_views(s.update(i, m)) == message_views(s).update(i, m@),
{
    assert(message_views(s.update(i, m)) =~= message_views(s).update(i, m@));
}

impl IncomingMessage {
    /// A message with a role and a text and nothing else.
    pub fn plain(role: &str, text: String) -> (r: IncomingMessage)
        ensures
            r@ == plain_message(role@, text@),
    {
        let r = IncomingMessage {
            role: role.to_owned(),
            content: ParsedContent { text, images: Vec::new() },
            tool_calls: None,
            tool_call_id: None,
            name: None,
        };
        assert(r@.images =~= Seq::<Seq<char>>::empty());
        r
    }

    /// A system message that the server adds.
    pub fn synthetic_system(text: String) -> (r: IncomingMessage)
        ensures
            r@ == plain_message("system"@, text@),
    {
        IncomingMessage::plain("system", text)
    }

    /// A tool result that the server adds.
    pub fn synthetic_tool(text: String, tool_call_id: String) -> (r: IncomingMessage)
        ensures
            r@ == tool_message(text@, tool_call_id@),
    {
        let mut r = IncomingMessage::plain("tool", text);
        r.tool_call_id = Some(tool_call_id);
        r
    }

    /// A copy.
    pub fn copy(&self) -> (r: IncomingMessage)
        ensures
            r@ == self@,
    {
        let mut images: Vec<String> = Vec::new();
        let mut i: usize = 0;
        while i < self.content.images.len()
            invariant
                i <= self.content.images@.len(),
                views(images@) == views(self.content.images@.take(i as int)),
            decreases self.content.images@.len() - i,
        {
            let ghost before = images@;
            images.push(self.content.images[i].clone());
            assert(views(images@) =~= views(before).push(self.content.images@[i as int]@));
            assert(views(self.content.images@.take(i + 1)) =~= views(
                self.content.images@.take(i as int),
            ).push(self.content.images@[i as int]@));
            i += 1;
        }
        assert(self.content.images@.take(i as int) =~= self.content.images@);
        let tool_calls = match &self.tool_calls {
            Some(c) => Some(copy_calls(c)),
            None => None,
        };
        IncomingMessage {
            role: self.role.clone(),
            content: ParsedContent { text: self.content.text.clone(), images },
            tool_calls,
            tool_call_id: copy_opt(&self.tool_call_id),
            name: copy_opt(&self.name),
        }
    }

    /// The message with another text.
    pub fn with_text(self, text: String) -> (r: IncomingMessage)
        ensures
            r@ == (MessageView { text: text@, ..self@ }),
    {
        IncomingMessage {
            role: self.role,
            content: ParsedContent { text, images: self.content.images },
            tool_calls: self.tool_calls,
            tool_call_id: self.tool_call_id,
            name: self.name,
        }
    }
}

/// A copy of a list of calls.
pub fn copy_calls(c: &Vec<IncomingToolCall>) -> (r: Vec<IncomingToolCall>)
    ensures
        incoming_views(r@) == incoming_views(c@),
{
    let mut r: Vec<IncomingToolCall> = Vec::new();
    let mut i: usize = 0;
    while i < c.len()
        invariant
            i <= c@.len(),
            incoming_views(r@) == incoming_views(c@.take(i as int)),
        decreases c@.len() - i,
    {
        let ghost before = r@;
        r.push(c[i].copy());
        assert(incoming_views(r@) =~= incoming_views(before).push(c@[i as int]@));
        assert(incoming_views(c@.take(i + 1)) =~= incoming_views(c@.take(i as int)).push(
            c@[i as int]@,
        ));
        i += 1;
    }
    assert(c@.take(i as int) =~= c@);
    r
}

/// Replaces the text of one message.
pub fn set_text(messages: &mut Vec<IncomingMessage>, i: usize, text: String)
    requires
        i < old(messages)@.len(),
    ensures
        message_views(final(messages)@) == message_views(old(messages)@).update(
            i as int,
            (MessageView { text: text@, ..old(messages)@[i as int]@ }),
        ),
{
    broadcast use lemma_message_views_update;

    let ghost before = messages@;
    let m = messages.remove(i);
    let n = m.with_text(text);
    messages.insert(i, n);
    assert(messages@ =~= before.update(i as int, n));
}

/// A plain message says who speaks and what, and nothing else; a tool's message
/// also names the call that it answers.
pub proof fn law_messages_say_what_they_are_made_of(role: Seq<char>, text: Seq<char>, id: Seq<char>)
    ensures
        plain_message(role, text).role == role,
        plain_message(role, text).text == text,
        plain_message(role, text).images.len() == 0,
        plain_message(role, text).tool_calls is None,
        plain_message(role, text).tool_call_id is None,
        tool_message(text, id).role == "tool"@,
        tool_message(text, id).text == text,
        tool_message(text, id).tool_call_id == Some(id),
        tool_message(text, id).tool_calls is None,
{
}

} // verus!

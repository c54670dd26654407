//! What a request must keep to, and how it is made ready.
use vstd::prelude::*;
use crate::api_error::{ApiError, BAD_REQUEST};
use crate::api_error::{param_error, plain_error, ErrorView};
use crate::decimal::dec_u64;
use crate::decimal::dec;
use crate::messages::IncomingMessage;
use crate::messages::{lemma_message_views_insert, message_views, plain_message, MessageView};
use crate::messages::set_text;
use crate::openai::chat_request::{ChatCompletionRequest, ToolChoice};
use crate::text::{own, same};

verus! {

/// The most messages that a request may have.
pub const MAX_MESSAGES: usize = 2048;

impl ToolChoice {
    /// Whether this is the mode of this name.
    pub open spec fn is_mode(self, mode: Seq<char>) -> bool {
        self matches ToolChoice::Mode(s) && s@ == mode
    }

    /// Whether no tool is to be called.
    pub fn is_none(&self) -> (r: bool)
        ensures
            r == self.is_mode("none"@),
    {
        self.has_mode("none")
    }

    /// Whether this is the mode of this name.
    pub fn has_mode(&self, mode: &str) -> (r: bool)
        ensures
            r == self.is_mode(mode@),
    {
        match self {
            ToolChoice::Mode(s) => same(s.as_str(), mode),
            ToolChoice::Specific { .. } => false,
        }
    }
}

impl<F> ChatCompletionRequest<F> {
    /// Whether the request declares a tool.
    pub open spec fn declares_tools(self) -> bool {
        self.tools matches Some(t) && t@.len() > 0
    }

    /// Whether the request declares a tool.
    pub fn has_tools(&self) -> (r: bool)
        ensures
            r == self.declares_tools(),
    {
        match &self.tools {
            Some(t) => t.len() > 0,
            None => false,
        }
    }

    /// Whether the tool choice is the mode of this name.
    pub open spec fn chooses(self, mode: Seq<char>) -> bool {
        self.tool_choice matches Some(c) && c.is_mode(mode)
    }

    /// Whether the tool choice is the mode of this name.
    pub fn choice_is(&self, mode: &str) -> (r: bool)
        ensures
            r == self.chooses(mode@),
    {
        match &self.tool_choice {
            Some(c) => c.has_mode(mode),
            None => false,
        }
    }
}

/// The mode that a tool choice names, where it names one.
pub open spec fn mode_of(c: Option<ToolChoice>) -> Option<Seq<char>> {
    match c {
        Some(ToolChoice::Mode(s)) => Some(s@),
        _ => None,
    }
}

/// What is wrong with a request, if anything: the first thing that is, in this
/// order. Whether the temperature and the nucleus are in range is handed in.
pub open spec fn input_error<F>(
    req: ChatCompletionRequest<F>,
    temperature_ok: bool,
    top_p_ok: bool,
) -> Option<ErrorView> {
    if req.messages@.len() == 0 {
        Some(
            param_error(
                BAD_REQUEST,
                "messages must contain at least one message"@,
                "messages"@,
                None,
            ),
        )
    } else if req.messages@.len() > MAX_MESSAGES {
        Some(
            param_error(
                BAD_REQUEST,
                "messages array exceeds maximum length (2048)"@,
                "messages"@,
                None,
            ),
        )
    } else if !temperature_ok {
        Some(
            param_error(
                BAD_REQUEST,
                "temperature must be between 0 and 2"@,
                "temperature"@,
                None,
            ),
        )
    } else if !top_p_ok {
        Some(
            param_error(
                BAD_REQUEST,
                "top_p must be between 0 (exclusive) and 1"@,
                "top_p"@,
                None,
            ),
        )
    } else if req.max_tokens == 0 {
        Some(
            param_error(BAD_REQUEST, "max_tokens must be at least 1"@, "max_tokens"@, None),
        )
    } else {
        match mode_of(req.tool_choice) {
            Some(s) => if s != "auto"@ && s != "none"@ && s != "required"@ {
                Some(
                    plain_error(
                        BAD_REQUEST,
                        "Invalid tool_choice value: '"@ + s
                            + "'. Must be 'auto', 'none', 'required', or a function object."@,
                    ),
                )
            } else if s == "required"@ && !req.declares_tools() {
                Some(
                    plain_error(
                        BAD_REQUEST,
                        "tool_choice is 'required' but no tools were provided"@,
                    ),
                )
            } else {
                None
            },
            None => None,
        }
    }
}

/// Checks a request: the number of messages, the ranges, the tool choice.
pub fn validate_input<F>(
    req: &ChatCompletionRequest<F>,
    temperature_ok: bool,
    top_p_ok: bool,
) -> (r: Result<(), ApiError>)
    ensures
        match r {
            Ok(()) => input_error(*req, temperature_ok, top_p_ok) is None,
            Err(e) => input_error(*req, temperature_ok, top_p_ok) == Some(e@),
        },
{
    if req.messages.len() == 0 {
        return Err(
            ApiError::at(
                BAD_REQUEST,
                own("messages must contain at least one message"),
                "messages",
                None,
            ),
        );
    }
    if req.messages.len() > MAX_MESSAGES {
        return Err(
            ApiError::at(
                BAD_REQUEST,
                own("messages array exceeds maximum length (2048)"),
                "messages",
                None,
            ),
        );
    }
    if !temperature_ok {
        return Err(
            ApiError::at(
                BAD_REQUEST,
                own("temperature must be between 0 and 2"),
                "temperature",
                None,
            ),
        );
    }
    if !top_p_ok {
        return Err(
            ApiError::at(
                BAD_REQUEST,
                own("top_p must be between 0 (exclusive) and 1"),
                "top_p",
                None,
            ),
        );
    }
    if req.max_tokens == 0 {
        return Err(
            ApiError::at(
                BAD_REQUEST,
                own("max_tokens must be at least 1"),
                "max_tokens",
                None,
            ),
        );
    }
    match &req.tool_choice {
        Some(ToolChoice::Mode(s)) => {
            let required = same(s.as_str(), "required");
            if !same(s.as_str(), "auto") && !same(s.as_str(), "none") && !required {
                let mut m = own("Invalid tool_choice value: '");
                m.append(s.as_str());
                m.append("'. Must be 'auto', 'none', 'required', or a function object.");
                return Err(ApiError::plain(BAD_REQUEST, m));
            }
            if required && !req.has_tools() {
                return Err(
                    ApiError::plain(
                        BAD_REQUEST,
                        own("tool_choice is 'required' but no tools were provided"),
                    ),
                );
            }
        },
        _ => {},
    }
    Ok(())
}

/// Whether tool calls are looked for: the model has a parser for them, the
/// request declares a tool and does not rule out calls.
pub open spec fn tools_in_use<F>(req: ChatCompletionRequest<F>, has_parser: bool) -> bool {
    has_parser && req.declares_tools() && !req.chooses("none"@)
}

/// Computes [`tools_in_use`].
pub fn tools_active<F>(req: &ChatCompletionRequest<F>, has_parser: bool) -> (r: bool)
    ensures
        r == tools_in_use(*req, has_parser),
{
    has_parser && req.has_tools() && !req.choice_is("none")
}

/// The messages with a prompt on how to call tools at their head.
pub open spec fn with_tool_prompt(msgs: Seq<MessageView>, prompt: Seq<char>) -> Seq<MessageView> {
    if msgs.len() > 0 && msgs[0].role == "system"@ {
        msgs.update(
            0,
            (MessageView { text: prompt + "\n\n"@ + msgs[0].text, ..msgs[0] }),
        )
    } else {
        msgs.insert(0, plain_message("system"@, prompt))
    }
}

/// Puts a prompt on how to call tools at the head of the system message, or
/// into a system message of its own.
pub fn inject_tool_prompt(messages: &mut Vec<IncomingMessage>, prompt: String)
    ensures
        message_views(final(messages)@) == with_tool_prompt(
            message_views(old(messages)@),
            prompt@,
        ),
{
    broadcast use lemma_message_views_insert;

    if messages.len() > 0 {
        assert(message_views(messages@)[0] == messages@[0]@);
        if same(messages[0].role.as_str(), "system") {
            let mut text = prompt;
            text.append("\n\n");
            text.append(messages[0].content.text.as_str());
            set_text(messages, 0, text);
            return;
        }
    }
    messages.insert(0, IncomingMessage::synthetic_system(prompt));
}

/// Checks that a prompt leaves room for an answer.
pub fn check_prompt_length(prompt_len: usize, max_seq_len: usize) -> (r: Result<(), ApiError>)
    ensures
        match r {
            Ok(()) => prompt_len < max_seq_len,
            Err(e) => prompt_len >= max_seq_len && e@ == plain_error(
                BAD_REQUEST,
                "Prompt too long: "@ + dec(prompt_len as nat) + " tokens exceeds max_seq_len "@
                    + dec(max_seq_len as nat) + " (leave room for output tokens)"@,
            ),
        },
{
    if prompt_len < max_seq_len {
        return Ok(());
    }
    let mut m = own("Prompt too long: ");
    m.append(dec_u64(prompt_len as u64).as_str());
    m.append(" tokens exceeds max_seq_len ");
    m.append(dec_u64(max_seq_len as u64).as_str());
    m.append(" (leave room for output tokens)");
    Err(ApiError::plain(BAD_REQUEST, m))
}

/// A streamed answer has one choice.
pub fn check_stream_choices(n: usize) -> (r: Result<(), ApiError>)
    ensures
        match r {
            Ok(()) => n <= 1,
            Err(e) => n > 1 && e@ == plain_error(
                BAD_REQUEST,
                "n > 1 is not supported in streaming mode"@,
            ),
        },
{
    if n > 1 {
        Err(ApiError::plain(BAD_REQUEST, own("n > 1 is not supported in streaming mode")))
    } else {
        Ok(())
    }
}

/// The error of a request body that is not what was asked for.
pub fn invalid_json(error: &str) -> (r: ApiError)
    ensures
        r@ == plain_error(BAD_REQUEST, "Invalid request JSON: "@ + error@),
{
    let mut m = own("Invalid request JSON: ");
    m.append(error);
    ApiError::plain(BAD_REQUEST, m)
}

/// The error of an image that could not be read.
pub fn image_failed(error: &str) -> (r: ApiError)
    ensures
        r@ == plain_error(BAD_REQUEST, "Image decode error: "@ + error@),
{
    let mut m = own("Image decode error: ");
    m.append(error);
    ApiError::plain(BAD_REQUEST, m)
}

/// The error of a text that could not be tokenized.
pub fn tokenization_failed(error: &str) -> (r: ApiError)
    ensures
        r@ == plain_error(BAD_REQUEST, "Tokenization error: "@ + error@),
{
    let mut m = own("Tokenization error: ");
    m.append(error);
    ApiError::plain(BAD_REQUEST, m)
}

// ---------------------------------------------------------------------------
// Laws
// ---------------------------------------------------------------------------
/// A request is accepted exactly where it has messages, not too many, where all
/// that it asks for is in range, and where its tool choice is one that can be
/// met. Every error is the client's.
pub proof fn law_requests_are_checked<F>(
    req: ChatCompletionRequest<F>,
    temperature_ok: bool,
    top_p_ok: bool,
)
    ensures
        input_error(req, temperature_ok, top_p_ok) is None <==> {
            &&& 1 <= req.messages@.len() <= 2048
            &&& temperature_ok
            &&& top_p_ok
            &&& req.max_tokens >= 1
            &&& req.tool_choice matches Some(ToolChoice::Mode(s)) ==> (s@ == "auto"@ || s@
                == "none"@ || (s@ == "required"@ && (req.tools matches Some(t) && t@.len() > 0)))
        },
        input_error(req, temperature_ok, top_p_ok) matches Some(e) ==> e.status == 400,
        req.messages@.len() == 0 || req.messages@.len() > 2048 ==> (input_error(
            req,
            temperature_ok,
            top_p_ok,
        ) matches Some(e) && e.param == Some("messages"@)),
        1 <= req.messages@.len() <= 2048 && !temperature_ok ==> (input_error(
            req,
            temperature_ok,
            top_p_ok,
        ) matches Some(e) && e.param == Some("temperature"@)),
        1 <= req.messages@.len() <= 2048 && temperature_ok && !top_p_ok ==> (input_error(
            req,
            temperature_ok,
            top_p_ok,
        ) matches Some(e) && e.param == Some("top_p"@)),
        1 <= req.messages@.len() <= 2048 && temperature_ok && top_p_ok && req.max_tokens == 0 ==> (
        input_error(req, temperature_ok, top_p_ok) matches Some(e) && e.param == Some(
            "max_tokens"@,
        )),
{
    reveal_strlit("auto");
    reveal_strlit("none");
    reveal_strlit("required");
    assert("auto"@.len() == 4 && "required"@.len() == 8 && "none"@.len() == 4);
}

/// Tool calls are looked for exactly where the model has a parser, the request
/// declares a tool, and it does not rule calls out.
pub proof fn law_tools_are_in_use<F>(req: ChatCompletionRequest<F>, has_parser: bool)
    ensures
        !has_parser ==> !tools_in_use(req, has_parser),
        req.tools is None ==> !tools_in_use(req, has_parser),
        req.tool_choice matches Some(ToolChoice::Mode(s)) && s@ == "none"@ ==> !tools_in_use(
            req,
            has_parser,
        ),
        has_parser && (req.tools matches Some(t) && t@.len() > 0) && req.tool_choice is None
            ==> tools_in_use(req, has_parser),
        has_parser && (req.tools matches Some(t) && t@.len() > 0) && (
        req.tool_choice matches Some(ToolChoice::Mode(s)) && s@ != "none"@) ==> tools_in_use(
            req,
            has_parser,
        ),
        has_parser && (req.tools matches Some(t) && t@.len() > 0) && (
        req.tool_choice matches Some(ToolChoice::Specific { .. })) ==> tools_in_use(
            req,
            has_parser,
        ),
{
}

/// The prompt on tools leads: it begins the system message, and what the
/// messages said is all still there.
pub proof fn law_tool_prompt_leads(msgs: Seq<MessageView>, prompt: Seq<char>, i: int)
    requires
        0 <= i < msgs.len(),
    ensures
        ({
            let r = with_tool_prompt(msgs, prompt);
            let led = msgs[0].role == "system"@;
            &&& r.len() == msgs.len() + if led {
                0int
            } else {
                1
            }
            &&& r[0].role == "system"@
            &&& r[0].text.len() >= prompt.len()
            &&& r[0].text.take(prompt.len() as int) == prompt
            &&& !led ==> r[i + 1] == msgs[i]
            &&& led && i > 0 ==> r[i] == msgs[i]
            &&& led ==> r[0].text.len() >= msgs[0].text.len() && r[0].text.skip(
                r[0].text.len() - msgs[0].text.len(),
            ) == msgs[0].text && r[0].images == msgs[0].images
        }),
{
    let r = with_tool_prompt(msgs, prompt);
    assert(r[0].text.take(prompt.len() as int) =~= prompt);
    if msgs[0].role == "system"@ {
        assert(r[0].text.skip(r[0].text.len() - msgs[0].text.len()) =~= msgs[0].text);
    }
}

} // verus!

//! Probes, tokenization and what is not supported.
use vstd::prelude::*;
use crate::api_error::{ApiError, BAD_REQUEST, NOT_IMPLEMENTED, SERVICE_UNAVAILABLE};
use crate::api_error::plain_error;
use crate::json::{no_members, object, push_member, Json};
use crate::json::{key_at, member_of, member_views, JsonView};
use crate::text::own;

verus! {

/// The body of the readiness probe.
pub open spec fn health_json(ready: bool, model: Seq<char>) -> JsonView {
    JsonView::Object(
        if ready {
            seq![("status"@, JsonView::Str("ready"@)), ("model"@, JsonView::Str(model))]
        } else {
            seq![("status"@, JsonView::Str("loading"@))]
        },
    )
}

/// The readiness probe: its status and its body.
pub fn health(ready: bool, model: &str) -> (r: (u16, Json))
    ensures
        r.0 == if ready {
            200
        } else {
            SERVICE_UNAVAILABLE
        },
        r.1@ == health_json(ready, model@),
{
    let mut o = no_members();
    if ready {
        push_member(&mut o, "status", Json::text("ready"));
        push_member(&mut o, "model", Json::text(model));
    } else {
        push_member(&mut o, "status", Json::text("loading"));
    }
    proof {
        let want = health_json(ready, model@)->Object_0;
        assert(member_views(o@) =~= want);
    }
    if ready {
        (200, object(o))
    } else {
        (SERVICE_UNAVAILABLE, object(o))
    }
}

/// A request to turn tokens into text.
#[derive(Debug, Clone)]
pub struct DetokenizeRequest {
    /// The tokens.
    pub tokens: Vec<u32>,
}

/// What is to be tokenized.
#[derive(Debug, Clone, Copy, PartialEq, Eq, Structural)]
pub enum TokenizeSource {
    /// The text.
    Prompt,
    /// The messages, through the chat template.
    Messages,
}

/// Says what is to be tokenized: the text, where there is one, else the
/// messages.
pub fn tokenize_source(has_prompt: bool, has_messages: bool) -> (r: Result<
    TokenizeSource,
    ApiError,
>)
    ensures
        match r {
            Ok(s) => (has_prompt || has_messages) && s == if has_prompt {
                TokenizeSource::Prompt
            } else {
                TokenizeSource::Messages
            },
            Err(e) => !has_prompt && !has_messages && e@ == plain_error(
                BAD_REQUEST,
                "Either 'prompt' or 'messages' is required"@,
            ),
        },
{
    if has_prompt {
        Ok(TokenizeSource::Prompt)
    } else if has_messages {
        Ok(TokenizeSource::Messages)
    } else {
        Err(ApiError::plain(BAD_REQUEST, own("Either 'prompt' or 'messages' is required")))
    }
}

/// An endpoint that is known and not served.
#[derive(Debug, Clone, Copy, PartialEq, Eq, Structural)]
pub enum Unsupported {
    /// Starting a batch.
    Batches,
    /// Looking for a batch.
    BatchGet,
    /// Listing batches.
    BatchList,
    /// Files.
    Files,
    /// Audio.
    Audio,
    /// Images.
    Images,
    /// Moderations.
    Moderations,
}

impl Unsupported {
    /// What the client is told.
    pub open spec fn words(self) -> Seq<char> {
        match self {
            Unsupported::Batches => {
                "Batch API is not supported. Submit requests directly to /v1/chat/completions; Atlas serves them synchronously."@
            },
            Unsupported::BatchGet => {
                "Batch API is not supported. No batches are tracked on this server."@
            },
            Unsupported::BatchList => {
                "Batch API is not supported. No batches are tracked on this server."@
            },
            Unsupported::Files => {
                "File storage API is not supported. Atlas is an inference-only server; upload-then-reference workflows (batches, vision by file_id) are not available."@
            },
            Unsupported::Audio => {
                "Audio API is not supported. Atlas serves text chat/completion models only."@
            },
            Unsupported::Images => {
                "Image API is not supported. Atlas serves text chat/completion models only."@
            },
            Unsupported::Moderations => {
                "Moderations API is not supported. Atlas does not classify inputs for safety; run your own moderation pass upstream if needed."@
            },
        }
    }

    /// The error that the client gets.
    pub fn error(self) -> (r: ApiError)
        ensures
            r@ == plain_error(NOT_IMPLEMENTED, self.words()),
    {
        let m = match self {
            Unsupported::Batches => {
                "Batch API is not supported. Submit requests directly to /v1/chat/completions; Atlas serves them synchronously."
            },
            Unsupported::BatchGet => {
                "Batch API is not supported. No batches are tracked on this server."
            },
            Unsupported::BatchList => {
                "Batch API is not supported. No batches are tracked on this server."
            },
            Unsupported::Files => {
                "File storage API is not supported. Atlas is an inference-only server; upload-then-reference workflows (batches, vision by file_id) are not available."
            },
            Unsupported::Audio => {
                "Audio API is not supported. Atlas serves text chat/completion models only."
            },
            Unsupported::Images => {
                "Image API is not supported. Atlas serves text chat/completion models only."
            },
            Unsupported::Moderations => {
                "Moderations API is not supported. Atlas does not classify inputs for safety; run your own moderation pass upstream if needed."
            },
        };
        ApiError::plain(NOT_IMPLEMENTED, own(m))
    }
}

/// A server that is ready names its model; one that is not says that it loads.
pub proof fn law_health_names_the_model(model: Seq<char>)
    ensures
        member_of(health_json(true, model), "model"@) == Some(JsonView::Str(model)),
        member_of(health_json(true, model), "status"@) == Some(JsonView::Str("ready"@)),
        member_of(health_json(false, model), "status"@) == Some(JsonView::Str("loading"@)),
{
    reveal_strlit("model");
    reveal_strlit("status");
    assert("model"@.len() != "status"@.len());
    reveal_with_fuel(key_at, 3);
}

} // verus!

//! The message and response types of the chat API.
use vstd::prelude::*;
use crate::tools::{call_views, opt_view, ToolCallView};
use crate::tools::ToolCall;

verus! {

/// Where a URL is cited in a text.
#[derive(Debug, Clone, PartialEq, Eq)]
pub struct UrlCitation {
    pub start_index: usize,
    pub end_index: usize,
    pub url: String,
    pub title: String,
}

/// An annotation of a text.
#[derive(Debug, Clone, PartialEq, Eq)]
pub enum Annotation {
    UrlCitation { url_citation: UrlCitation },
}

/// What an [`Annotation`] says.
pub struct CitationView {
    pub start_index: usize,
    pub end_index: usize,
    pub url: Seq<char>,
    pub title: Seq<char>,
}

impl View for Annotation {
    type V = CitationView;

    open spec fn view(&self) -> CitationView {
        match *self {
            Annotation::UrlCitation { url_citation: c } => CitationView {
                start_index: c.start_index,
                end_index: c.end_index,
                url: c.url@,
                title: c.title@,
            },
        }
    }
}

/// What a list of annotations says.
pub open spec fn annotation_views(s: Seq<Annotation>) -> Seq<CitationView> {
    s.map_values(|a: Annotation| a@)
}

/// What optional annotations say.
pub open spec fn opt_annotations(o: Option<Vec<Annotation>>) -> Option<Seq<CitationView>> {
    match o {
        Some(v) => Some(annotation_views(v@)),
        None => None,
    }
}

/// An assistant message.
#[derive(Debug, Clone, PartialEq, Eq)]
pub struct ChatMessage {
    pub role: String,
    pub reasoning_content: Option<String>,
    pub reasoning: Option<String>,
    pub content: Option<String>,
    pub tool_calls: Option<Vec<ToolCall>>,
    pub annotations: Option<Vec<Annotation>>,
    pub refusal: Option<String>,
}

/// One choice of a chat completion. `L` holds the log-probabilities.
#[derive(Debug, Clone, PartialEq, Eq)]
pub struct ChatChoice<L> {
    pub index: usize,
    pub message: ChatMessage,
    pub finish_reason: String,
    pub logprobs: Option<L>,
}

/// What a [`ChatMessage`] says.
pub struct ChatMessageView {
    pub role: Seq<char>,
    pub reasoning_content: Option<Seq<char>>,
    pub reasoning: Option<Seq<char>>,
    pub content: Option<Seq<char>>,
    pub tool_calls: Option<Seq<ToolCallView>>,
    pub annotations: Option<Seq<CitationView>>,
    pub refusal: Option<Seq<char>>,
}

impl View for ChatMessage {
    type V = ChatMessageView;

    open spec fn view(&self) -> ChatMessageView {
        ChatMessageView {
            role: self.role@,
            reasoning_content: opt_view(self.reasoning_content),
            reasoning: opt_view(self.reasoning),
            content: opt_view(self.content),
            tool_calls: match self.tool_calls {
                Some(c) => Some(call_views(c@)),
                None => None,
            },
            annotations: opt_annotations(self.annotations),
            refusal: opt_view(self.refusal),
        }
    }
}

} // verus!

//! Tool calls and tool definitions.
use vstd::prelude::*;
use crate::json::Json;
use crate::text::views;

verus! {

/// The function part of a finished tool call.
#[derive(Debug, Clone, PartialEq, Eq)]
pub struct FunctionCall {
    pub name: String,
    pub arguments: String,
}

/// A finished tool call.
#[derive(Debug, Clone, PartialEq, Eq)]
pub struct ToolCall {
    pub id: String,
    pub call_type: String,
    pub function: FunctionCall,
}

/// What a [`ToolCall`] says.
pub struct ToolCallView {
    pub id: Seq<char>,
    pub call_type: Seq<char>,
    pub name: Seq<char>,
    pub arguments: Seq<char>,
}

impl View for ToolCall {
    type V = ToolCallView;

    open spec fn view(&self) -> ToolCallView {
        ToolCallView {
            id: self.id@,
            call_type: self.call_type@,
            name: self.function.name@,
            arguments: self.function.arguments@,
        }
    }
}

/// What a sequence of tool calls says.
pub open spec fn call_views(s: Seq<ToolCall>) -> Seq<ToolCallView> {
    s.map_values(|c: ToolCall| c@)
}

/// The function part of a tool call in a request's history.
#[derive(Debug, Clone, PartialEq, Eq)]
pub struct IncomingFunction {
    pub name: String,
    pub arguments: String,
}

/// A tool call in a request's history.
#[derive(Debug, Clone, PartialEq, Eq)]
pub struct IncomingToolCall {
    pub id: Option<String>,
    pub function: IncomingFunction,
}

/// What an [`IncomingToolCall`] says.
pub struct CallView {
    pub id: Option<Seq<char>>,
    pub name: Seq<char>,
    pub arguments: Seq<char>,
}

/// The view of an optional string.
pub open spec fn opt_view(o: Option<String>) -> Option<Seq<char>> {
    match o {
        Some(s) => Some(s@),
        None => None,
    }
}

/// A copy of an optional string.
pub fn copy_opt(o: &Option<String>) -> (r: Option<String>)
    ensures
        r == *o,
{
    match o {
        Some(s) => Some(s.clone()),
        None => None,
    }
}

impl View for IncomingToolCall {
    type V = CallView;

    open spec fn view(&self) -> CallView {
        CallView {
            id: opt_view(self.id),
            name: self.function.name@,
            arguments: self.function.arguments@,
        }
    }
}

impl IncomingToolCall {
    /// A copy.
    pub fn copy(&self) -> (r: IncomingToolCall)
        ensures
            r == *self,
    {
        IncomingToolCall {
            id: copy_opt(&self.id),
            function: IncomingFunction {
                name: self.function.name.clone(),
                arguments: self.function.arguments.clone(),
            },
        }
    }
}

/// The function part of a tool definition.
#[derive(Debug)]
pub struct FunctionDefinition {
    pub name: String,
    pub description: Option<String>,
    pub parameters: Option<Json>,
}

/// A tool that a request offers to the model.
#[derive(Debug)]
pub struct ToolDefinition {
    pub tool_type: String,
    pub function: FunctionDefinition,
}

/// The function part of a streamed tool call delta.
#[derive(Debug, Clone, PartialEq, Eq)]
pub struct ChunkFunction {
    pub name: Option<String>,
    pub arguments: String,
}

/// A streamed tool call delta.
#[derive(Debug, Clone, PartialEq, Eq)]
pub struct ChunkToolCall {
    pub index: usize,
    pub id: Option<String>,
    pub call_type: Option<String>,
    pub function: ChunkFunction,
}

/// The tags that a tool-call format may leak into plain content.
#[derive(Debug, Clone)]
pub struct LeakMarkers {
    /// Openers that start a leak when no envelope surrounds them.
    pub orphan_open: Vec<String>,
    /// Closers that end a leak.
    pub close: Vec<String>,
    /// Openers of a legitimate envelope.
    pub envelope_open: Vec<String>,
    /// Closers of a legitimate envelope.
    pub envelope_close: Vec<String>,
}

/// What [`LeakMarkers`] hold.
pub struct MarkerView {
    pub orphan_open: Seq<Seq<char>>,
    pub close: Seq<Seq<char>>,
    pub envelope_open: Seq<Seq<char>>,
    pub envelope_close: Seq<Seq<char>>,
}

impl View for LeakMarkers {
    type V = MarkerView;

    open spec fn view(&self) -> MarkerView {
        MarkerView {
            orphan_open: views(self.orphan_open@),
            close: views(self.close@),
            envelope_open: views(self.envelope_open@),
            envelope_close: views(self.envelope_close@),
        }
    }
}

/// What the tool-call detector made of a piece of content.
#[derive(Debug, Clone)]
pub enum DetectorOutput {
    /// Plain content.
    Content(String),
    /// A complete call and its index.
    ToolCall(ToolCall, usize),
    /// A call begins.
    ToolCallStart { id: String, name: String, idx: usize },
    /// More arguments of a call.
    ToolCallDelta { args: String, idx: usize },
    /// A call ends.
    ToolCallEnd { idx: usize },
}

/// What a [`DetectorOutput`] says.
pub enum OutputView {
    Content(Seq<char>),
    ToolCall(ToolCallView, usize),
    ToolCallStart { id: Seq<char>, name: Seq<char>, idx: usize },
    ToolCallDelta { args: Seq<char>, idx: usize },
    ToolCallEnd { idx: usize },
}

impl View for DetectorOutput {
    type V = OutputView;

    open spec fn view(&self) -> OutputView {
        match *self {
            DetectorOutput::Content(t) => OutputView::Content(t@),
            DetectorOutput::ToolCall(c, i) => OutputView::ToolCall(c@, i),
            DetectorOutput::ToolCallStart { id, name, idx } => OutputView::ToolCallStart {
                id: id@,
                name: name@,
                idx,
            },
            DetectorOutput::ToolCallDelta { args, idx } => OutputView::ToolCallDelta {
                args: args@,
                idx,
            },
            DetectorOutput::ToolCallEnd { idx } => OutputView::ToolCallEnd { idx },
        }
    }
}

/// What a sequence of detector outputs says.
pub open spec fn output_views(s: Seq<DetectorOutput>) -> Seq<OutputView> {
    s.map_values(|o: DetectorOutput| o@)
}

} // verus!

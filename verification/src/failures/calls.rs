//! The tool calls of a conversation.
use vstd::prelude::*;
use crate::keyed::capped;
use crate::messages::MessageView;
use crate::tool_args::primary_arg;
use crate::tools::CallView;

verus! {

/// What a call is known by: the tool and its main argument.
pub type CallKey = (Seq<char>, Seq<char>);

/// The keys of the calls that have a main argument, in order.
pub open spec fn keys_of_calls(calls: Seq<CallView>) -> Seq<CallKey>
    decreases calls.len(),
{
    if calls.len() == 0 {
        Seq::empty()
    } else {
        let before = keys_of_calls(calls.drop_last());
        let c = calls.last();
        match primary_arg(c.name, c.arguments) {
            Some(a) => before.push((c.name, a)),
            None => before,
        }
    }
}

/// The calls of a message, where it is the assistant's.
pub open spec fn assistant_calls(m: MessageView) -> Seq<CallView> {
    match m.tool_calls {
        Some(c) if m.role == "assistant"@ => c,
        _ => Seq::empty(),
    }
}

/// The keys of all calls of the assistant, in order.
pub open spec fn call_keys(msgs: Seq<MessageView>) -> Seq<CallKey>
    decreases msgs.len(),
{
    if msgs.len() == 0 {
        Seq::empty()
    } else {
        call_keys(msgs.drop_last()) + keys_of_calls(assistant_calls(msgs.last()))
    }
}

/// The number of the assistant's calls, as far as 32 bits hold it.
pub open spec fn call_count(msgs: Seq<MessageView>) -> u32
    decreases msgs.len(),
{
    if msgs.len() == 0 {
        0
    } else {
        capped(
            call_count(msgs.drop_last()) as nat + (assistant_calls(msgs.last()).len() as u32)
                as nat,
        )
    }
}

} // verus!

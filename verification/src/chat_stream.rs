//! The streamed chat completion: from events to what goes over the wire.
pub mod adapter;
pub mod flow;
pub mod handlers;
pub mod run;
pub mod state;
pub mod wire;

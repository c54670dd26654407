//! The state machine of a chat completion, shared by the streaming and the
//! blocking path.
pub mod assemble;
pub mod choice_builder;
pub mod events;
pub mod flow;
pub mod laws;
pub mod stepper;
pub mod stop_predicate;

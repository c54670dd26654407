//! Request and response logic of an inference server.
//!
//! A chat request comes in ([`openai`]), is checked and prepared ([`chat`],
//! [`failures`], [`grammar`]), is handed to the scheduler ([`inference`]), and
//! its answer goes out whole ([`chat_blocking`]) or piece by piece
//! ([`chat_stream`]), both by way of one state machine ([`chat_fsm`]). Other
//! APIs stand in front of the same pipeline ([`responses`], [`anthropic`]),
//! keep what it made ([`stored`], [`conversations`]) or surround it
//! ([`middleware`], [`misc`]); [`startup`] settles what holds for all requests.
//! The other modules hold texts, JSON and lists in the forms that proofs need.
pub mod anthropic;
pub mod api_error;
pub mod bytes;
pub mod chat;
pub mod chat_blocking;
pub mod chat_fsm;
pub mod chat_stream;
pub mod conversations;
pub mod decimal;
pub mod defaults;
pub mod failures;
pub mod grammar;
pub mod inference;
pub mod json;
pub mod json_keys;
pub mod json_text;
pub mod keyed;
pub mod listing;
pub mod messages;
pub mod middleware;
pub mod misc;
pub mod openai;
pub mod order;
pub mod responses;
pub mod sanitizer;
pub mod shown;
pub mod startup;
pub mod stored;
pub mod text;
pub mod tool_args;
pub mod tools;
pub mod trim;

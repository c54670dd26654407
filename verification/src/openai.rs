//! The request and response shapes of the chat API.
pub mod chat_request;
pub mod chat_response;
pub mod reading;
pub mod types;

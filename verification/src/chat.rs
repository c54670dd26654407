//! The chat completion, up to the scheduler.
pub mod entries;
pub mod masking;
pub mod sampling;
pub mod template;
pub mod thinking;
pub mod turn;
pub mod validate;

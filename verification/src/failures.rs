//! Noticing that a conversation makes no progress, and telling the model.
pub mod breaker;
pub mod calls;
pub mod circuit;
pub mod classification;
pub mod duplicate;
pub mod leaks;
pub mod notice;
pub mod noticed;
pub mod stall;
pub mod told;
pub mod watchdog;

//! Grammars that constrain what a model may emit.
pub mod kept;
pub mod normal;
pub mod schema;
pub mod state;
pub mod tags;
pub mod vocab;

//! An interpreter for a small line-numbered scripting language: a loader that
//! reads framed program text into validated segments, and a state machine that
//! decodes and runs one statement at a time.
pub mod errors;
pub mod grammar;
pub mod laws;
pub mod loader;
pub mod program;
pub mod states;
pub mod text;

//! Spinn: a terminal spinner library.
//!
//! The verified core of a terminal spinner program: a registry of named
//! frame sequences with cyclic navigation, a pure frame formatter, an
//! export formatter, and the animation state machine that reacts to
//! key and timeout events.

pub mod args;
pub mod engine;
pub mod export;
pub mod render;
pub mod registry;
pub mod source;
pub mod strutil;
pub mod term;

//! A small language for sequencing commands to networked lights: named
//! variables bind an action or a sequence of actions, triggers perform a bound
//! variable at once, and directives switch optional behaviour on.

pub mod actions;
pub mod engine;
pub mod grammar;
pub mod laws;
pub mod lshow;
pub mod midi;
pub mod parser;
pub mod text;

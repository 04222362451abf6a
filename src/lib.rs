//! An interpreter for Stack, a small concatenative scripting language.
//!
//! The library holds the whole language core: the lexer, the value model with
//! its coercions, the variable memory and the evaluator with its built-in
//! commands. The evaluator is a step machine: it never blocks, never touches
//! the outside world and never computes with floating point. Whenever a
//! command needs the host (console, files, network, clock, or IEEE-754
//! arithmetic), the machine hands out a `Request` and waits for a `Reply`.

pub mod outside;
pub mod text;
pub mod value;
pub mod number;
pub mod lexer;
pub mod bindings;
pub mod commands;
pub mod builtins;
pub mod machine;
pub mod laws;

pub use machine::{execute_command, Action, Executor, Mode, Reply, Request};
pub use value::Type;

//! Evaluation core of an interaction-net runtime: agents and ports joined by
//! wires, a bidirectional connection index, the built-in rules of the
//! eraser / constructor / duplicator family, and the normalization loop.
pub mod ast;
pub mod binding;
pub mod builtin;
pub mod connection;
pub mod context;
pub mod fxmap;
pub mod id;
pub mod laws;
pub mod map;
pub mod rule;
pub mod rulebook;
pub mod runtime;
pub mod term;

//! Core of a structured command shell: a span-tagged syntax tree, a working
//! set that owns blocks and supports speculative parses, a flattening pass
//! that classifies source ranges for tooling, and a streaming pipeline
//! executor with per-item error isolation and cooperative cancellation.

pub mod ast;
pub mod engine;
pub mod math_command;
pub mod split_chars;
pub mod split_column;
pub mod flatten;
pub mod highlight;
pub mod span;
pub mod stream;
pub mod strutil;
pub mod signature;
pub mod value;
pub mod workingset;

pub use span::Span;

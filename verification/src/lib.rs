//! A sandboxed interpreter for a small expression language: source text is
//! parsed, compiled to a linear instruction list and run on a state machine
//! that enforces an instruction budget and a memory limit.
pub mod error;
pub mod mapping;
pub mod mem;
pub mod ast;
pub mod instructions;
pub mod compile;
pub mod ops;
pub mod exec;
pub mod step;
pub mod eval;
pub mod lexer;
pub mod syntax;
pub mod parser;
pub mod machine;
pub mod text;
pub mod tree_view;
pub mod recurse;
pub mod render;
pub mod repl;
pub mod laws;

//! Core of a small dynamically-typed scripting language: a lexer, a
//! precedence-climbing parser that produces an abstract syntax tree while
//! collecting diagnostics instead of aborting, and a tree-walking executor
//! that evaluates the tree against a scoped variable environment.
//!
//! Compound runtime values (strings, arrays, maps) live in an arena owned by
//! the executor and are referred to by handles, so that two bindings to the
//! same compound value observe each other's mutations (reference semantics).
//!
//! The central safety chain: [`parse::Parser::parse_all`] guarantees that a
//! parse with zero diagnostics yields a tree satisfying [`ast::node_wf`]
//! (no `Error` placeholder anywhere, function literal bodies included);
//! [`executor::VM::execute`] requires exactly that, and its arm for the
//! `Error` node is verified unreachable — a well-formed program can never
//! evaluate one.

pub mod span;
pub mod text;
pub mod token;
pub mod ast;
pub mod handle;
pub mod heap;
pub mod lexer;
pub mod function;
pub mod render;
pub mod corelib;
pub mod parse;
pub mod value;
pub mod executor;

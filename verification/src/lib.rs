//! A small Lisp-family expression evaluator: a tokenizer, a recursive-descent
//! parser, a chain of environment frames, and a recursive evaluator with the
//! special forms `if`, `def` and `fn`, arithmetic and chained comparison
//! builtins over IEEE-754 double-precision numbers, and user-defined
//! closures. A closure does not capture its defining environment: its call
//! frame links to the caller's frame, so free variables resolve through the
//! caller's chain.
//!
//! Alongside the evaluator lives a small tape machine for a two-word
//! esoteric instruction set, with its own splitter and jump matcher.
pub mod env;
pub mod err;
pub mod eval;
pub mod expr;
pub mod num;
pub mod ook;
pub mod parser;
pub mod text;
pub mod token;

//! A verified tree-walking interpreter core for a small dynamically typed
//! scripting language: lexical scanning, recursive-descent parsing into an
//! abstract syntax tree, and evaluation with lexically scoped variable
//! environments.
//!
//! Number values are IEEE-754 double-precision floats, carried everywhere in
//! this crate as their 64-bit representation (`u64`). The crate never performs
//! floating-point arithmetic itself: whenever evaluation needs the result of a
//! numeric operation, it hands the surrounding driver a [`interpreter::NumberQuery`]
//! and is resumed with the answer. Everything else - tokenization, parsing,
//! operator dispatch, scoping, string operations, error reporting - is verified.

pub mod environment;
pub mod expression;
pub mod interpreter;
pub mod parser;
pub mod printer;
pub mod rescan;
pub mod scanner;
pub mod statement;
pub mod token;

//! Front end of a shell-like interpreter: a tokenizer that turns a raw
//! command-line string into a sequence of lexical tokens, and a
//! recursive-descent parser with bounded backtracking that turns that
//! sequence into an abstract syntax tree for sequencing, backgrounding,
//! pipelines, redirection and command invocation.
//!
//! Nothing here executes commands: the caller walks the tree.

pub mod ast;
pub mod lexer;
pub mod parser;
pub mod token;

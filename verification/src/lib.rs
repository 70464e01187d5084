//! Front end for a markdown-like document markup language: a scanner and
//! recursive-descent grammar that turn raw source text into a
//! source-located abstract syntax tree, or a structured diagnostic.

pub mod args;
pub mod ast;
pub mod context;
pub mod location;
pub mod log;
pub mod messages;
pub mod parser;
pub mod scanner;

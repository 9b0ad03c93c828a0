//! A small templating document language: source text mixes literal prose
//! with inline expressions (`=name(args)`, `=name`) and brace-delimited
//! statement blocks (`={ ... }`). The scanner splits the text, the grammar
//! parses each code region, and the evaluator renders the document against
//! a mutable environment.

pub mod ast;
pub mod float;
pub mod grammar;
pub mod parser;
pub mod visitor;

//! A small Scheme interpreter: lexer, reader, evaluator with lexical
//! closures, and the decisions of an interactive loop.

pub mod text;
pub mod number;
pub mod value;
pub mod error;
pub mod lexer;
pub mod reader;
pub mod env;
pub mod builtins;
pub mod eval;
pub mod repl;
pub mod laws;
pub mod eval_laws;
pub mod form_laws;
pub mod lex_laws;
pub mod wellformed;
pub mod read_back;
pub mod bignat;

//! ExprLang: a lightweight mathematical expression language.
//!
//! The library holds the language's front end and the evaluator's rules:
//! the lexer and parser (proved against a grammar written as spec functions),
//! the syntax tree, error reporting, the evaluator's function table and step
//! budget, the builtin table, the command line and the REPL's decisions.

pub mod ast;
pub mod cli;
pub mod error;
pub mod evaluator;
pub mod grammar;
pub mod lexer;
pub mod parser;
pub mod repl;
pub mod text;

pub use evaluator::Evaluator;
pub use repl::VERSION;

//! Front end and evaluation core of a small, dynamically typed,
//! expression-oriented scripting language.
//!
//! Source text is cut into tokens, tokens are parsed into a syntax tree by
//! operator-precedence parsing, and the tree is evaluated against a chain of
//! environments. Every stage is specified by a mathematical model over
//! sequences and maps, and the executable code is proved to compute it.
//! Laws of the models are proved beside them, up to laws of whole source
//! texts that are put together from parts.

pub mod composition;
pub mod evaluator;
pub mod lexer;
pub mod object;
pub mod parser;
pub mod text;
pub mod token;

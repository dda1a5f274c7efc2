//! Front end of a small scripting language: a character-level scanner that
//! turns source text into tokens, the expression tree, and a printer that
//! renders a tree in prefix form.

pub mod expr;
pub mod payload;
pub mod printer;
pub mod lexer_spec;
pub mod scanner;
pub mod text;
pub mod token;

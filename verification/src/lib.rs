//! Front end of the Monkey programming language: a byte-oriented lexer that
//! turns source text into classified tokens, and a recursive-descent parser
//! that assembles `let` and `return` statements from the token stream while
//! collecting diagnostics for grammar violations.

pub mod ast;
pub mod lexer;
pub mod parser;
pub mod token;

pub use token::Token;
pub use token::TokenType;

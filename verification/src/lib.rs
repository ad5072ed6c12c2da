//! Front end of a small C-like scripting language: a lexer that turns source
//! text into a line-numbered token stream, and a recursive-descent parser that
//! turns the token stream into an expression tree over a fixed precedence
//! hierarchy. Both components report malformed input to a recording
//! diagnostics sink and recover rather than abort.

pub mod expr;
pub mod lox;
pub mod parser;
pub mod scanner;

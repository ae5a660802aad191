//! Front end of a small scripting-language interpreter: lexing of a source
//! line into classified tokens, and recursive-descent parsing of the token
//! sequence into an expression tree.

pub mod chars;
pub mod lex;
pub mod lexer;
pub mod parser;

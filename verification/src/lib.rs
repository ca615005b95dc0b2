//! A lexer and precedence-climbing parser for a small C-like expression
//! language.  Raw text is turned into a token stream by the [`lexer`], and the
//! token stream is turned into an abstract syntax tree by the [`parser`].
//! Every stage carries a mathematical model: the lexer is specified against a
//! character-level description of tokenization, and the parser against a
//! recursive description of precedence climbing over that token stream.

pub mod text;
pub mod token;
pub mod decimal;
pub mod lexer;
pub mod ast;
pub mod parser;

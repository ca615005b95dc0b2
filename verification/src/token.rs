//! The token model: the closed set of lexical categories and the token value
//! (category plus literal text).  `SpecToken` is the mathematical image of a
//! token, with the literal as a sequence of characters.

use vstd::prelude::*;

verus! {

use crate::text::str_eq;

/// The closed set of lexical categories.
#[derive(Debug, PartialEq, Eq, Structural, Clone, Copy)]
#[allow(non_camel_case_types)]
pub enum TokenType {
    ILLEGAL,
    EOF,
    // identifiers and literals
    IDENT,
    INTEGER,
    // operators
    ASSIGN,
    PLUS,
    MINUS,
    BANG,
    ASTERISK,
    SLASH,
    LT,
    GT,
    EQ,
    NOTEQ,
    // delimiters
    COMMA,
    SEMICOLON,
    LEFTPAREN,
    RIGHTPAREN,
    LEFTBRACE,
    RIGHTBRACE,
    // keywords
    FUNCTION,
    LET,
    TRUE,
    FALSE,
    IF,
    ELSE,
    RETURN,
}

/// A token: its category and its literal text.
#[derive(Debug, PartialEq, Clone)]
pub struct Token {
    pub token_type: TokenType,
    pub literal: String,
}

/// The mathematical image of a token: the category and the literal as a
/// character sequence.
pub struct SpecToken {
    pub kind: TokenType,
    pub literal: Seq<char>,
}

impl View for Token {
    type V = SpecToken;

    open spec fn view(&self) -> SpecToken {
        SpecToken { kind: self.token_type, literal: self.literal@ }
    }
}

impl Token {
    pub fn new(token_type: TokenType, literal: String) -> (t: Token)
        ensures
            t@.kind == token_type,
            t@.literal == literal@,
    {
        Token { token_type, literal }
    }

    /// A copy of the token with the same category and literal.
    pub fn duplicate(&self) -> (t: Token)
        ensures
            t@ == self@,
    {
        Token { token_type: self.token_type, literal: self.literal.clone() }
    }
}

/// The category of a word that the lexer has read as an identifier: one of
/// the seven reserved words, or a generic identifier.
pub open spec fn spec_keyword(w: Seq<char>) -> TokenType {
    if w == "fn"@ {
        TokenType::FUNCTION
    } else if w == "let"@ {
        TokenType::LET
    } else if w == "true"@ {
        TokenType::TRUE
    } else if w == "false"@ {
        TokenType::FALSE
    } else if w == "if"@ {
        TokenType::IF
    } else if w == "else"@ {
        TokenType::ELSE
    } else if w == "return"@ {
        TokenType::RETURN
    } else {
        TokenType::IDENT
    }
}

/// Reclassifies an identifier as a keyword where it matches one of the seven
/// reserved words.
pub fn lookup_identifier(identifier: &str) -> (t: TokenType)
    ensures
        t == spec_keyword(identifier@),
{
    if str_eq(identifier, "fn") {
        TokenType::FUNCTION
    } else if str_eq(identifier, "let") {
        TokenType::LET
    } else if str_eq(identifier, "true") {
        TokenType::TRUE
    } else if str_eq(identifier, "false") {
        TokenType::FALSE
    } else if str_eq(identifier, "if") {
        TokenType::IF
    } else if str_eq(identifier, "else") {
        TokenType::ELSE
    } else if str_eq(identifier, "return") {
        TokenType::RETURN
    } else {
        TokenType::IDENT
    }
}

/// The error returned when a piece of text is not the spelling of any fixed
/// token.
#[derive(Debug)]
pub struct ParseTokenError;

/// The category whose fixed spelling is the given text: operators,
/// delimiters and keywords.  Identifier, integer, illegal and end-of-input
/// tokens have no fixed spelling.
pub open spec fn spec_token_type_of_str(s: Seq<char>) -> Option<TokenType> {
    if s == "="@ {
        Some(TokenType::ASSIGN)
    } else if s == "=="@ {
        Some(TokenType::EQ)
    } else if s == "+"@ {
        Some(TokenType::PLUS)
    } else if s == "-"@ {
        Some(TokenType::MINUS)
    } else if s == "!"@ {
        Some(TokenType::BANG)
    } else if s == "!="@ {
        Some(TokenType::NOTEQ)
    } else if s == "*"@ {
        Some(TokenType::ASTERISK)
    } else if s == "/"@ {
        Some(TokenType::SLASH)
    } else if s == "<"@ {
        Some(TokenType::LT)
    } else if s == ">"@ {
        Some(TokenType::GT)
    } else if s == ","@ {
        Some(TokenType::COMMA)
    } else if s == ";"@ {
        Some(TokenType::SEMICOLON)
    } else if s == "("@ {
        Some(TokenType::LEFTPAREN)
    } else if s == ")"@ {
        Some(TokenType::RIGHTPAREN)
    } else if s == "{"@ {
        Some(TokenType::LEFTBRACE)
    } else if s == "}"@ {
        Some(TokenType::RIGHTBRACE)
    } else if s == "fn"@ {
        Some(TokenType::FUNCTION)
    } else if s == "let"@ {
        Some(TokenType::LET)
    } else if s == "true"@ {
        Some(TokenType::TRUE)
    } else if s == "false"@ {
        Some(TokenType::FALSE)
    } else if s == "if"@ {
        Some(TokenType::IF)
    } else if s == "else"@ {
        Some(TokenType::ELSE)
    } else if s == "return"@ {
        Some(TokenType::RETURN)
    } else {
        None
    }
}

impl TokenType {
    /// Parses the fixed spelling of an operator, delimiter or keyword.
    pub fn from_token_str(s: &str) -> (r: Result<TokenType, ParseTokenError>)
        ensures
            match spec_token_type_of_str(s@) {
                Some(t) => r is Ok && r->Ok_0 == t,
                None => r is Err,
            },
    {
        if str_eq(s, "=") {
            Ok(TokenType::ASSIGN)
        } else if str_eq(s, "==") {
            Ok(TokenType::EQ)
        } else if str_eq(s, "+") {
            Ok(TokenType::PLUS)
        } else if str_eq(s, "-") {
            Ok(TokenType::MINUS)
        } else if str_eq(s, "!") {
            Ok(TokenType::BANG)
        } else if str_eq(s, "!=") {
            Ok(TokenType::NOTEQ)
        } else if str_eq(s, "*") {
            Ok(TokenType::ASTERISK)
        } else if str_eq(s, "/") {
            Ok(TokenType::SLASH)
        } else if str_eq(s, "<") {
            Ok(TokenType::LT)
        } else if str_eq(s, ">") {
            Ok(TokenType::GT)
        } else if str_eq(s, ",") {
            Ok(TokenType::COMMA)
        } else if str_eq(s, ";") {
            Ok(TokenType::SEMICOLON)
        } else if str_eq(s, "(") {
            Ok(TokenType::LEFTPAREN)
        } else if str_eq(s, ")") {
            Ok(TokenType::RIGHTPAREN)
        } else if str_eq(s, "{") {
            Ok(TokenType::LEFTBRACE)
        } else if str_eq(s, "}") {
            Ok(TokenType::RIGHTBRACE)
        } else if str_eq(s, "fn") {
            Ok(TokenType::FUNCTION)
        } else if str_eq(s, "let") {
            Ok(TokenType::LET)
        } else if str_eq(s, "true") {
            Ok(TokenType::TRUE)
        } else if str_eq(s, "false") {
            Ok(TokenType::FALSE)
        } else if str_eq(s, "if") {
            Ok(TokenType::IF)
        } else if str_eq(s, "else") {
            Ok(TokenType::ELSE)
        } else if str_eq(s, "return") {
            Ok(TokenType::RETURN)
        } else {
            Err(ParseTokenError)
        }
    }
}

impl core::str::FromStr for TokenType {
    type Err = ParseTokenError;

    fn from_str(s: &str) -> Result<TokenType, ParseTokenError> {
        TokenType::from_token_str(s)
    }
}

} // verus!

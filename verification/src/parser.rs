//! The parser: consumes the lexer's token stream through a two-token window
//! (current and peek) and builds a [`Program`] — recursive descent for
//! statements, precedence climbing for expressions — accumulating structured
//! errors instead of stopping at the first malformed statement.
//!
//! The mathematical model mirrors the machine word for word: a scan position
//! `p` into the input stands for "the current token is `cur_tok(s, p)`", and
//! the spec functions `spec_parse_expression`, `spec_parse_statement` and
//! `spec_parse_program` say which nodes, which errors and which final
//! position every parsing step yields.  Each `Parser` method is proved to
//! return exactly what its spec function says.

use vstd::prelude::*;

verus! {

use crate::ast::{
    Expression,
    Identifier,
    InfixExpression,
    IntegerLiteral,
    LetStatement,
    PrefixExpression,
    Program,
    ReturnStatement,
    Statement,
    SpecExpression,
    SpecIdentifier,
    SpecInfixExpression,
    SpecIntegerLiteral,
    SpecLetStatement,
    SpecPrefixExpression,
    SpecReturnStatement,
    SpecStatement,
};
use crate::decimal::{spec_parse_i64, parse_decimal_i64};
use crate::lexer::{Lexer, cur_tok, next_pos, lemma_token_bounds, lemma_identifier_literal_nonempty};
use crate::token::{Token, TokenType};
use vstd::string::StringExecFns;

/// A parse error: a human-readable message.
#[derive(Debug)]
pub struct ParseError {
    message: String,
}

impl View for ParseError {
    type V = Seq<char>;

    closed spec fn view(&self) -> Seq<char> {
        self.message@
    }
}

impl ParseError {
    /// Wraps a message as an error.
    pub fn new(message: String) -> (e: ParseError)
        ensures
            e@ == message@,
    {
        ParseError { message }
    }

    /// The error's message.
    pub fn message(&self) -> (r: &str)
        ensures
            r@ == self@,
    {
        self.message.as_str()
    }
}

/// The strictly ordered precedence ladder of the expression grammar.
#[derive(Debug, PartialEq, Eq, PartialOrd)]
#[allow(non_camel_case_types)]
pub enum Precedence {
    LOWEST,
    EQUALS,  // ==
    LESSGREATER,  // < or >
    SUM,  // +
    PRODUCT,  // *
    PREFIX,  // -x or !x
    CALL,  // f(x)
}

/// The rank of a rung of the precedence ladder.
pub open spec fn spec_prec_level(p: Precedence) -> int {
    match p {
        Precedence::LOWEST => 0,
        Precedence::EQUALS => 1,
        Precedence::LESSGREATER => 2,
        Precedence::SUM => 3,
        Precedence::PRODUCT => 4,
        Precedence::PREFIX => 5,
        Precedence::CALL => 6,
    }
}

/// The rank of the precedence with which a token extends an expression:
/// positive exactly for the eight infix operators, lowest for everything
/// else, so that an unrecognized token stops the extension loop rather than
/// erroring.
pub open spec fn spec_precedence_of(t: TokenType) -> int {
    match t {
        TokenType::EQ => 1,
        TokenType::NOTEQ => 1,
        TokenType::LT => 2,
        TokenType::GT => 2,
        TokenType::PLUS => 3,
        TokenType::MINUS => 3,
        TokenType::SLASH => 4,
        TokenType::ASTERISK => 4,
        _ => 0,
    }
}

/// The eight infix operators.
pub open spec fn is_infix_op(t: TokenType) -> bool {
    spec_precedence_of(t) > 0
}

/// The name of a token category, as it appears in error messages.
pub open spec fn spec_token_type_name(t: TokenType) -> Seq<char> {
    match t {
        TokenType::ILLEGAL => "ILLEGAL"@,
        TokenType::EOF => "EOF"@,
        TokenType::IDENT => "IDENT"@,
        TokenType::INTEGER => "INTEGER"@,
        TokenType::ASSIGN => "ASSIGN"@,
        TokenType::PLUS => "PLUS"@,
        TokenType::MINUS => "MINUS"@,
        TokenType::BANG => "BANG"@,
        TokenType::ASTERISK => "ASTERISK"@,
        TokenType::SLASH => "SLASH"@,
        TokenType::LT => "LT"@,
        TokenType::GT => "GT"@,
        TokenType::EQ => "EQ"@,
        TokenType::NOTEQ => "NOTEQ"@,
        TokenType::COMMA => "COMMA"@,
        TokenType::SEMICOLON => "SEMICOLON"@,
        TokenType::LEFTPAREN => "LEFTPAREN"@,
        TokenType::RIGHTPAREN => "RIGHTPAREN"@,
        TokenType::LEFTBRACE => "LEFTBRACE"@,
        TokenType::RIGHTBRACE => "RIGHTBRACE"@,
        TokenType::FUNCTION => "FUNCTION"@,
        TokenType::LET => "LET"@,
        TokenType::TRUE => "TRUE"@,
        TokenType::FALSE => "FALSE"@,
        TokenType::IF => "IF"@,
        TokenType::ELSE => "ELSE"@,
        TokenType::RETURN => "RETURN"@,
    }
}

/// The message recorded when a required following token is absent.
pub open spec fn spec_expected_message(expected: TokenType, got: TokenType) -> Seq<char> {
    "expected next token to be "@ + spec_token_type_name(expected) + ", got "@
        + spec_token_type_name(got) + " instead."@
}

/// The message recorded when no prefix rule applies to a token.
pub open spec fn spec_no_prefix_message(t: TokenType) -> Seq<char> {
    "no prefix parse function for "@ + spec_token_type_name(t) + " found"@
}

/// The message recorded when an integer literal does not fit a 64-bit
/// signed integer.
pub open spec fn spec_bad_integer_message(literal: Seq<char>) -> Seq<char> {
    "could not parse "@ + literal + " as integer"@
}

/// The first scan position at or after `p` whose token is a semicolon or
/// end-of-input: where a let or return statement stops skipping.
pub open spec fn spec_skip_to_semicolon(s: Seq<char>, p: int) -> int
    decreases s.len() - p,
{
    let kind = cur_tok(s, p).kind;
    if kind == TokenType::SEMICOLON || kind == TokenType::EOF {
        p
    } else {
        let np = next_pos(s, p);
        // A token other than end-of-input always advances the position
        // (lemma_token_bounds); the test makes that visible to the recursion.
        if p < np <= s.len() {
            spec_skip_to_semicolon(s, np)
        } else {
            p
        }
    }
}

/// What parsing one expression at precedence rank `prec`, with the current
/// token at `p`, yields: on success the node and the scan position of the
/// expression's last token, on failure the error message and the position at
/// which parsing stopped.
pub open spec fn spec_parse_expression(s: Seq<char>, p: int, prec: int) -> Result<
    (SpecExpression, int),
    (Seq<char>, int),
>
    decreases s.len() - p, 1int,
{
    let tok = cur_tok(s, p);
    if tok.kind == TokenType::IDENT {
        let node = SpecExpression::Identifier(SpecIdentifier { token: tok, value: tok.literal });
        spec_infix_extend(s, node, p, prec)
    } else if tok.kind == TokenType::INTEGER {
        match spec_parse_i64(tok.literal) {
            Some(v) => {
                let node = SpecExpression::Integer(SpecIntegerLiteral { token: tok, value: v });
                spec_infix_extend(s, node, p, prec)
            },
            None => Err((spec_bad_integer_message(tok.literal), p)),
        }
    } else if tok.kind == TokenType::BANG || tok.kind == TokenType::MINUS {
        let rp = next_pos(s, p);
        // An operator token always advances the position; the tests keep the
        // recursion visibly decreasing and never fail (lemma_token_bounds,
        // lemma_parse_expression_bounds).
        if p < rp <= s.len() {
            match spec_parse_expression(s, rp, 5) {
                Ok((operand, q)) => {
                    let node = SpecExpression::Prefix(
                        SpecPrefixExpression {
                            token: tok,
                            operator: tok.literal,
                            right: Box::new(operand),
                        },
                    );
                    if p < q <= s.len() {
                        spec_infix_extend(s, node, q, prec)
                    } else {
                        Err((Seq::empty(), q))
                    }
                },
                Err(e) => Err(e),
            }
        } else {
            Err((Seq::empty(), p))
        }
    } else {
        Err((spec_no_prefix_message(tok.kind), p))
    }
}

/// The extension loop of precedence climbing: while the peek token is not a
/// semicolon and binds tighter than `prec`, fold `left` with the operator
/// and the right-hand operand parsed at the operator's own precedence.
pub open spec fn spec_infix_extend(s: Seq<char>, left: SpecExpression, q: int, prec: int) -> Result<
    (SpecExpression, int),
    (Seq<char>, int),
>
    decreases s.len() - q, 0int,
{
    let nq = next_pos(s, q);
    let peek = cur_tok(s, nq);
    if peek.kind != TokenType::SEMICOLON && prec < spec_precedence_of(peek.kind) {
        if is_infix_op(peek.kind) {
            let rp = next_pos(s, nq);
            // An infix operator always advances the position; the tests keep
            // the recursion visibly decreasing and never fail.
            if q < rp <= s.len() {
                match spec_parse_expression(s, rp, spec_precedence_of(peek.kind)) {
                    Ok((right, r_end)) => {
                        let node = SpecExpression::Infix(
                            SpecInfixExpression {
                                token: peek,
                                left: Box::new(left),
                                operator: peek.literal,
                                right: Box::new(right),
                            },
                        );
                        if q < r_end <= s.len() {
                            spec_infix_extend(s, node, r_end, prec)
                        } else {
                            Err((Seq::empty(), r_end))
                        }
                    },
                    Err(e) => Err(e),
                }
            } else {
                Err((Seq::empty(), q))
            }
        } else {
            // A token above the lowest rank is always one of the eight infix
            // operators, so this arm never runs; it mirrors the machine.
            Err(("not parsable"@, q))
        }
    } else {
        Ok((left, q))
    }
}

/// What parsing a let statement, with the current token at `p`, yields.  The
/// peek token must be an identifier and the one after it `=`; the value is
/// not yet parsed, so tokens are then skipped up to the trailing semicolon,
/// or the end of the input.
pub open spec fn spec_parse_let_statement(s: Seq<char>, p: int) -> Result<
    (SpecStatement, int),
    (Seq<char>, int),
> {
    let let_tok = cur_tok(s, p);
    let np = next_pos(s, p);
    let name_tok = cur_tok(s, np);
    if name_tok.kind != TokenType::IDENT {
        Err((spec_expected_message(TokenType::IDENT, name_tok.kind), p))
    } else {
        let nnp = next_pos(s, np);
        let assign_tok = cur_tok(s, nnp);
        if assign_tok.kind != TokenType::ASSIGN {
            Err((spec_expected_message(TokenType::ASSIGN, assign_tok.kind), np))
        } else {
            let stmt = SpecStatement::Let(
                SpecLetStatement {
                    token: let_tok,
                    name: SpecIdentifier { token: name_tok, value: name_tok.literal },
                },
            );
            Ok((stmt, spec_skip_to_semicolon(s, nnp)))
        }
    }
}

/// What parsing a return statement yields: the return-value expression is
/// not yet parsed, so tokens are skipped up to the trailing semicolon, or
/// the end of the input.
pub open spec fn spec_parse_return_statement(s: Seq<char>, p: int) -> (SpecStatement, int) {
    (
        SpecStatement::Return(SpecReturnStatement { token: cur_tok(s, p) }),
        spec_skip_to_semicolon(s, p),
    )
}

/// What parsing an expression statement yields: one expression at the lowest
/// precedence, then a trailing semicolon is consumed if present — whether
/// the expression parsed or not.
pub open spec fn spec_parse_expression_statement(s: Seq<char>, p: int) -> Result<
    (SpecStatement, int),
    (Seq<char>, int),
> {
    match spec_parse_expression(s, p, 0) {
        Ok((e, q)) => {
            let nq = next_pos(s, q);
            if cur_tok(s, nq).kind == TokenType::SEMICOLON {
                Ok((SpecStatement::Expression(e), nq))
            } else {
                Ok((SpecStatement::Expression(e), q))
            }
        },
        Err((m, q)) => {
            let nq = next_pos(s, q);
            if cur_tok(s, nq).kind == TokenType::SEMICOLON {
                Err((m, nq))
            } else {
                Err((m, q))
            }
        },
    }
}

/// What parsing one statement yields, dispatched on the current token:
/// `let`, `return`, or an expression statement.
pub open spec fn spec_parse_statement(s: Seq<char>, p: int) -> Result<
    (SpecStatement, int),
    (Seq<char>, int),
> {
    let kind = cur_tok(s, p).kind;
    if kind == TokenType::LET {
        spec_parse_let_statement(s, p)
    } else if kind == TokenType::RETURN {
        Ok(spec_parse_return_statement(s, p))
    } else {
        spec_parse_expression_statement(s, p)
    }
}

/// What parsing a whole program yields: statements in source order and error
/// messages in the order the errors arose.  One statement is parsed per
/// step; the position then advances past the statement's last token and
/// parsing continues until the current token is end-of-input, so one
/// malformed statement never stops the parse.
pub open spec fn spec_parse_program(s: Seq<char>, p: int) -> (Seq<SpecStatement>, Seq<Seq<char>>)
    decreases s.len() - p,
{
    if cur_tok(s, p).kind == TokenType::EOF {
        (Seq::empty(), Seq::empty())
    } else {
        let step = spec_parse_statement(s, p);
        let q = match step {
            Ok((_, q)) => q,
            Err((_, q)) => q,
        };
        let np = next_pos(s, q);
        // The statement ends at or after `p` and the advance past a token
        // other than end-of-input is strict, so the test never fails
        // (lemma_parse_statement_bounds, lemma_token_bounds).
        if p < np <= s.len() {
            let rest = spec_parse_program(s, np);
            match step {
                Ok((stmt, _)) => (seq![stmt] + rest.0, rest.1),
                Err((m, _)) => (rest.0, seq![m] + rest.1),
            }
        } else {
            (Seq::empty(), Seq::empty())
        }
    }
}

/// Skipping to a semicolon stays inside the input and never moves backward.
pub proof fn lemma_skip_to_semicolon_bounds(s: Seq<char>, p: int)
    requires
        0 <= p <= s.len(),
    ensures
        p <= spec_skip_to_semicolon(s, p) <= s.len(),
    decreases s.len() - p,
{
    let kind = cur_tok(s, p).kind;
    if kind != TokenType::SEMICOLON && kind != TokenType::EOF {
        lemma_token_bounds(s, p);
        let np = next_pos(s, p);
        if p < np <= s.len() {
            lemma_skip_to_semicolon_bounds(s, np);
        }
    }
}

/// An expression ends inside the input and never before its own first
/// token; on failure the position likewise stays inside the input.
pub proof fn lemma_parse_expression_bounds(s: Seq<char>, p: int, prec: int)
    requires
        0 <= p <= s.len(),
    ensures
        match spec_parse_expression(s, p, prec) {
            Ok((_, q)) => p <= q <= s.len(),
            Err((_, q)) => p <= q <= s.len(),
        },
    decreases s.len() - p, 1int,
{
    let tok = cur_tok(s, p);
    lemma_token_bounds(s, p);
    if tok.kind == TokenType::IDENT {
        let node = SpecExpression::Identifier(SpecIdentifier { token: tok, value: tok.literal });
        lemma_infix_extend_bounds(s, node, p, prec);
    } else if tok.kind == TokenType::INTEGER {
        match spec_parse_i64(tok.literal) {
            Some(v) => {
                let node = SpecExpression::Integer(SpecIntegerLiteral { token: tok, value: v });
                lemma_infix_extend_bounds(s, node, p, prec);
            },
            None => {},
        }
    } else if tok.kind == TokenType::BANG || tok.kind == TokenType::MINUS {
        let rp = next_pos(s, p);
        lemma_parse_expression_bounds(s, rp, 5);
        match spec_parse_expression(s, rp, 5) {
            Ok((operand, q)) => {
                let node = SpecExpression::Prefix(
                    SpecPrefixExpression {
                        token: tok,
                        operator: tok.literal,
                        right: Box::new(operand),
                    },
                );
                lemma_infix_extend_bounds(s, node, q, prec);
            },
            Err(_) => {},
        }
    }
}

/// The extension loop only moves the position forward, and stays inside the
/// input.
pub proof fn lemma_infix_extend_bounds(s: Seq<char>, left: SpecExpression, q: int, prec: int)
    requires
        0 <= q <= s.len(),
    ensures
        match spec_infix_extend(s, left, q, prec) {
            Ok((_, r)) => q <= r <= s.len(),
            Err((_, r)) => q <= r <= s.len(),
        },
    decreases s.len() - q, 0int,
{
    lemma_token_bounds(s, q);
    let nq = next_pos(s, q);
    let peek = cur_tok(s, nq);
    if peek.kind != TokenType::SEMICOLON && prec < spec_precedence_of(peek.kind) {
        if is_infix_op(peek.kind) {
            lemma_token_bounds(s, nq);
            let rp = next_pos(s, nq);
            if q < rp <= s.len() {
                lemma_parse_expression_bounds(s, rp, spec_precedence_of(peek.kind));
                match spec_parse_expression(s, rp, spec_precedence_of(peek.kind)) {
                    Ok((right, r_end)) => {
                        let node = SpecExpression::Infix(
                            SpecInfixExpression {
                                token: peek,
                                left: Box::new(left),
                                operator: peek.literal,
                                right: Box::new(right),
                            },
                        );
                        if q < r_end <= s.len() {
                            lemma_infix_extend_bounds(s, node, r_end, prec);
                        }
                    },
                    Err(_) => {},
                }
            }
        }
    }
}

/// No identifier inside the expression has an empty name.
pub open spec fn expr_identifiers_nonempty(e: SpecExpression) -> bool
    decreases e,
{
    match e {
        SpecExpression::Identifier(id) => id.value.len() >= 1,
        SpecExpression::Integer(_) => true,
        SpecExpression::Prefix(p) => expr_identifiers_nonempty(*p.right),
        SpecExpression::Infix(i) => expr_identifiers_nonempty(*i.left)
            && expr_identifiers_nonempty(*i.right),
        SpecExpression::Boolean(_) => true,
    }
}

/// No identifier inside the statement has an empty name.
pub open spec fn stmt_identifiers_nonempty(st: SpecStatement) -> bool {
    match st {
        SpecStatement::Let(l) => l.name.value.len() >= 1,
        SpecStatement::Return(_) => true,
        SpecStatement::Expression(e) => expr_identifiers_nonempty(e),
    }
}

/// Every identifier node a parsed expression carries has a non-empty name:
/// each one takes its name from an identifier token, which is a non-empty
/// run of letters.
pub proof fn lemma_expression_identifiers_nonempty(s: Seq<char>, p: int, prec: int)
    requires
        0 <= p <= s.len(),
    ensures
        match spec_parse_expression(s, p, prec) {
            Ok((e, _)) => expr_identifiers_nonempty(e),
            Err(_) => true,
        },
    decreases s.len() - p, 1int,
{
    let tok = cur_tok(s, p);
    lemma_token_bounds(s, p);
    if tok.kind == TokenType::IDENT {
        lemma_identifier_literal_nonempty(s, p);
        let node = SpecExpression::Identifier(SpecIdentifier { token: tok, value: tok.literal });
        lemma_infix_extend_identifiers_nonempty(s, node, p, prec);
    } else if tok.kind == TokenType::INTEGER {
        match spec_parse_i64(tok.literal) {
            Some(v) => {
                let node = SpecExpression::Integer(SpecIntegerLiteral { token: tok, value: v });
                lemma_infix_extend_identifiers_nonempty(s, node, p, prec);
            },
            None => {},
        }
    } else if tok.kind == TokenType::BANG || tok.kind == TokenType::MINUS {
        let rp = next_pos(s, p);
        lemma_parse_expression_bounds(s, rp, 5);
        lemma_expression_identifiers_nonempty(s, rp, 5);
        match spec_parse_expression(s, rp, 5) {
            Ok((operand, q)) => {
                let node = SpecExpression::Prefix(
                    SpecPrefixExpression {
                        token: tok,
                        operator: tok.literal,
                        right: Box::new(operand),
                    },
                );
                lemma_infix_extend_identifiers_nonempty(s, node, q, prec);
            },
            Err(_) => {},
        }
    }
}

/// The extension loop preserves non-emptiness of identifier names.
proof fn lemma_infix_extend_identifiers_nonempty(
    s: Seq<char>,
    left: SpecExpression,
    q: int,
    prec: int,
)
    requires
        0 <= q <= s.len(),
        expr_identifiers_nonempty(left),
    ensures
        match spec_infix_extend(s, left, q, prec) {
            Ok((e, _)) => expr_identifiers_nonempty(e),
            Err(_) => true,
        },
    decreases s.len() - q, 0int,
{
    lemma_token_bounds(s, q);
    let nq = next_pos(s, q);
    let peek = cur_tok(s, nq);
    if peek.kind != TokenType::SEMICOLON && prec < spec_precedence_of(peek.kind) {
        if is_infix_op(peek.kind) {
            lemma_token_bounds(s, nq);
            let rp = next_pos(s, nq);
            if q < rp <= s.len() {
                lemma_parse_expression_bounds(s, rp, spec_precedence_of(peek.kind));
                lemma_expression_identifiers_nonempty(s, rp, spec_precedence_of(peek.kind));
                match spec_parse_expression(s, rp, spec_precedence_of(peek.kind)) {
                    Ok((right, r_end)) => {
                        let node = SpecExpression::Infix(
                            SpecInfixExpression {
                                token: peek,
                                left: Box::new(left),
                                operator: peek.literal,
                                right: Box::new(right),
                            },
                        );
                        if q < r_end <= s.len() {
                            lemma_infix_extend_identifiers_nonempty(s, node, r_end, prec);
                        }
                    },
                    Err(_) => {},
                }
            }
        }
    }
}

/// Every identifier node a parsed statement carries has a non-empty name.
pub proof fn lemma_statement_identifiers_nonempty(s: Seq<char>, p: int)
    requires
        0 <= p <= s.len(),
    ensures
        match spec_parse_statement(s, p) {
            Ok((st, _)) => stmt_identifiers_nonempty(st),
            Err(_) => true,
        },
{
    let kind = cur_tok(s, p).kind;
    lemma_token_bounds(s, p);
    if kind == TokenType::LET {
        let np = next_pos(s, p);
        if cur_tok(s, np).kind == TokenType::IDENT {
            lemma_identifier_literal_nonempty(s, np);
        }
    } else if kind == TokenType::RETURN {
    } else {
        lemma_expression_identifiers_nonempty(s, p, 0);
    }
}

/// Identifiers are never empty strings: every let statement and every
/// identifier expression in a parsed program carries a non-empty name.
pub proof fn lemma_program_identifiers_nonempty(s: Seq<char>, p: int)
    requires
        0 <= p <= s.len(),
    ensures
        forall|i: int|
            0 <= i < spec_parse_program(s, p).0.len() ==> stmt_identifiers_nonempty(
                #[trigger] spec_parse_program(s, p).0[i],
            ),
    decreases s.len() - p,
{
    if cur_tok(s, p).kind != TokenType::EOF {
        lemma_token_bounds(s, p);
        lemma_parse_statement_bounds(s, p);
        lemma_statement_identifiers_nonempty(s, p);
        let step = spec_parse_statement(s, p);
        let q = match step {
            Ok((_, q)) => q,
            Err((_, q)) => q,
        };
        lemma_token_bounds(s, q);
        let np = next_pos(s, q);
        if p < np <= s.len() {
            lemma_program_identifiers_nonempty(s, np);
            let rest = spec_parse_program(s, np).0;
            let out = spec_parse_program(s, p).0;
            match step {
                Ok((st, _)) => {
                    assert(out == seq![st] + rest);
                    assert forall|i: int| 0 <= i < out.len() implies stmt_identifiers_nonempty(
                        out[i],
                    ) by {
                        if i == 0 {
                            assert(out[i] == st);
                        } else {
                            assert(out[i] == rest[i - 1]);
                        }
                    };
                },
                Err(_) => {
                    assert forall|i: int| 0 <= i < out.len() implies stmt_identifiers_nonempty(
                        out[i],
                    ) by {
                        assert(out[i] == rest[i]);
                    };
                },
            }
        }
    }
}

/// The views of accumulated errors: each error as its message text.
pub open spec fn error_views(errors: Seq<ParseError>) -> Seq<Seq<char>> {
    errors.map_values(|e: ParseError| e@)
}

/// The views of accumulated statements.
pub open spec fn statement_views(statements: Seq<Box<Statement>>) -> Seq<SpecStatement> {
    statements.map_values(|b: Box<Statement>| b@)
}

/// A statement ends inside the input and never before its own first token.
pub proof fn lemma_parse_statement_bounds(s: Seq<char>, p: int)
    requires
        0 <= p <= s.len(),
    ensures
        match spec_parse_statement(s, p) {
            Ok((_, q)) => p <= q <= s.len(),
            Err((_, q)) => p <= q <= s.len(),
        },
{
    let kind = cur_tok(s, p).kind;
    lemma_token_bounds(s, p);
    if kind == TokenType::LET {
        let np = next_pos(s, p);
        lemma_token_bounds(s, np);
        let nnp = next_pos(s, np);
        lemma_skip_to_semicolon_bounds(s, nnp);
    } else if kind == TokenType::RETURN {
        lemma_skip_to_semicolon_bounds(s, p);
    } else {
        lemma_parse_expression_bounds(s, p, 0);
        match spec_parse_expression(s, p, 0) {
            Ok((_, q)) => {
                lemma_token_bounds(s, q);
            },
            Err((_, q)) => {
                lemma_token_bounds(s, q);
            },
        }
    }
}

/// The printable name of a token category, as it appears in error messages.
pub fn token_type_name(t: TokenType) -> (r: &'static str)
    ensures
        r@ == spec_token_type_name(t),
{
    match t {
        TokenType::ILLEGAL => "ILLEGAL",
        TokenType::EOF => "EOF",
        TokenType::IDENT => "IDENT",
        TokenType::INTEGER => "INTEGER",
        TokenType::ASSIGN => "ASSIGN",
        TokenType::PLUS => "PLUS",
        TokenType::MINUS => "MINUS",
        TokenType::BANG => "BANG",
        TokenType::ASTERISK => "ASTERISK",
        TokenType::SLASH => "SLASH",
        TokenType::LT => "LT",
        TokenType::GT => "GT",
        TokenType::EQ => "EQ",
        TokenType::NOTEQ => "NOTEQ",
        TokenType::COMMA => "COMMA",
        TokenType::SEMICOLON => "SEMICOLON",
        TokenType::LEFTPAREN => "LEFTPAREN",
        TokenType::RIGHTPAREN => "RIGHTPAREN",
        TokenType::LEFTBRACE => "LEFTBRACE",
        TokenType::RIGHTBRACE => "RIGHTBRACE",
        TokenType::FUNCTION => "FUNCTION",
        TokenType::LET => "LET",
        TokenType::TRUE => "TRUE",
        TokenType::FALSE => "FALSE",
        TokenType::IF => "IF",
        TokenType::ELSE => "ELSE",
        TokenType::RETURN => "RETURN",
    }
}

/// Builds the message for a required following token that is absent.
fn expected_message(expected: TokenType, got: TokenType) -> (r: String)
    ensures
        r@ == spec_expected_message(expected, got),
{
    let mut out = "expected next token to be ".to_owned();
    out.append(token_type_name(expected));
    out.append(", got ");
    out.append(token_type_name(got));
    out.append(" instead.");
    out
}

/// Builds the message for a token with no prefix rule.
fn no_prefix_message(t: TokenType) -> (r: String)
    ensures
        r@ == spec_no_prefix_message(t),
{
    let mut out = "no prefix parse function for ".to_owned();
    out.append(token_type_name(t));
    out.append(" found");
    out
}

/// Builds the message for an integer literal that does not fit.
fn bad_integer_message(literal: &str) -> (r: String)
    ensures
        r@ == spec_bad_integer_message(literal@),
{
    let mut out = "could not parse ".to_owned();
    out.append(literal);
    out.append(" as integer");
    out
}

/// The rank of a rung of the precedence ladder, per [`spec_prec_level`].
fn prec_level(p: &Precedence) -> (r: u8)
    ensures
        r as int == spec_prec_level(*p),
{
    match p {
        Precedence::LOWEST => 0,
        Precedence::EQUALS => 1,
        Precedence::LESSGREATER => 2,
        Precedence::SUM => 3,
        Precedence::PRODUCT => 4,
        Precedence::PREFIX => 5,
        Precedence::CALL => 6,
    }
}

/// The parser: the lexer it drains, the two-token window (current and peek),
/// and the parse errors accumulated so far.  The ghost scan position ties
/// the window to the token stream: the current token is `cur_tok` at `scan`,
/// the peek token is the one after it, and the lexer stands after the peek
/// token.
pub struct Parser<'a> {
    lexer: Lexer<'a>,
    current_token: Token,
    peek_token: Token,
    pub errors: Vec<ParseError>,
    scan: Ghost<int>,
}

impl<'a> Parser<'a> {
    /// The input as a character sequence.
    pub closed spec fn inp(self) -> Seq<char> {
        self.lexer.inp()
    }

    /// The scan position of the current token.
    pub closed spec fn scan_pos(self) -> int {
        self.scan@
    }

    /// The messages of the errors accumulated so far, in order.
    pub closed spec fn errors_view(self) -> Seq<Seq<char>> {
        error_views(self.errors@)
    }

    /// The window and the lexer agree with the scan position.
    pub closed spec fn wf(self) -> bool {
        let s = self.lexer.inp();
        &&& self.lexer.wf()
        &&& 0 <= self.scan@ <= s.len()
        &&& self.current_token@ == cur_tok(s, self.scan@)
        &&& self.peek_token@ == cur_tok(s, next_pos(s, self.scan@))
        &&& self.lexer.position() == next_pos(s, next_pos(s, self.scan@))
    }

    /// Primes the two-token window by drawing two tokens from the lexer.
    pub fn new(lexer: Lexer<'a>) -> (parser: Parser<'a>)
        requires
            lexer.wf(),
        ensures
            parser.wf(),
            parser.inp() == lexer.inp(),
            parser.scan_pos() == lexer.position(),
            parser.errors_view() == Seq::<Seq<char>>::empty(),
    {
        let ghost p0 = lexer.position();
        let mut lexer = lexer;
        proof {
            lemma_token_bounds(lexer.inp(), p0);
        }
        let current_token = lexer.next_token();
        let peek_token = lexer.next_token();
        Parser { lexer, current_token, peek_token, errors: Vec::new(), scan: Ghost(p0) }
    }

    /// Slides the window one token forward: current becomes peek, and peek
    /// is drawn from the lexer.
    fn next_token(&mut self)
        requires
            old(self).wf(),
        ensures
            final(self).wf(),
            final(self).inp() == old(self).inp(),
            final(self).errors@ == old(self).errors@,
            final(self).scan_pos() == next_pos(old(self).inp(), old(self).scan_pos()),
    {
        proof {
            lemma_token_bounds(self.lexer.inp(), self.scan@);
            lemma_token_bounds(self.lexer.inp(), next_pos(self.lexer.inp(), self.scan@));
        }
        let ghost np = next_pos(self.lexer.inp(), self.scan@);
        self.current_token = self.peek_token.duplicate();
        self.peek_token = self.lexer.next_token();
        self.scan = Ghost(np);
    }

    /// Whether the current token has the given category.
    fn current_token_is(&self, t: &TokenType) -> (r: bool)
        requires
            self.wf(),
        ensures
            r == (cur_tok(self.inp(), self.scan_pos()).kind == *t),
    {
        self.current_token.token_type == *t
    }

    /// Whether the peek token has the given category.
    fn peek_token_is(&self, t: &TokenType) -> (r: bool)
        requires
            self.wf(),
        ensures
            r == (cur_tok(self.inp(), next_pos(self.inp(), self.scan_pos())).kind == *t),
    {
        self.peek_token.token_type == *t
    }

    /// Advances onto the peek token where it has the given category; does
    /// nothing otherwise.
    fn expect_peek(&mut self, t: &TokenType) -> (r: bool)
        requires
            old(self).wf(),
        ensures
            final(self).wf(),
            final(self).inp() == old(self).inp(),
            final(self).errors@ == old(self).errors@,
            r == (cur_tok(old(self).inp(), next_pos(old(self).inp(), old(self).scan_pos())).kind
                == *t),
            r ==> final(self).scan_pos() == next_pos(old(self).inp(), old(self).scan_pos()),
            !r ==> final(self).scan_pos() == old(self).scan_pos(),
    {
        if self.peek_token_is(t) {
            self.next_token();
            true
        } else {
            false
        }
    }

    /// The precedence with which a token extends an expression.
    fn precedence_for(&self, token: &TokenType) -> (r: Precedence)
        ensures
            spec_prec_level(r) == spec_precedence_of(*token),
    {
        match *token {
            TokenType::EQ | TokenType::NOTEQ => Precedence::EQUALS,
            TokenType::LT | TokenType::GT => Precedence::LESSGREATER,
            TokenType::PLUS | TokenType::MINUS => Precedence::SUM,
            TokenType::SLASH | TokenType::ASTERISK => Precedence::PRODUCT,
            _ => Precedence::LOWEST,
        }
    }

    /// The precedence of the peek token.
    fn peek_precedence(&self) -> (r: Precedence)
        requires
            self.wf(),
        ensures
            spec_prec_level(r) == spec_precedence_of(
                cur_tok(self.inp(), next_pos(self.inp(), self.scan_pos())).kind,
            ),
    {
        self.precedence_for(&self.peek_token.token_type)
    }

    /// Builds an identifier node from the current token.
    fn parse_identifier(&self) -> (e: Expression)
        requires
            self.wf(),
        ensures
            e@ == ({
                let tok = cur_tok(self.inp(), self.scan_pos());
                SpecExpression::Identifier(SpecIdentifier { token: tok, value: tok.literal })
            }),
    {
        Expression::Identifier(
            Identifier {
                token: self.current_token.duplicate(),
                value: self.current_token.literal.clone(),
            },
        )
    }

    /// Builds an integer node from the current token, failing where the
    /// literal text does not fit a 64-bit signed integer.
    fn parse_integer_literal(&mut self) -> (r: Result<Expression, ParseError>)
        requires
            old(self).wf(),
        ensures
            final(self).wf(),
            final(self).inp() == old(self).inp(),
            final(self).errors@ == old(self).errors@,
            final(self).scan_pos() == old(self).scan_pos(),
            ({
                let tok = cur_tok(old(self).inp(), old(self).scan_pos());
                match spec_parse_i64(tok.literal) {
                    Some(v) => r is Ok && (r->Ok_0)@ == SpecExpression::Integer(
                        SpecIntegerLiteral { token: tok, value: v },
                    ),
                    None => r is Err && (r->Err_0)@ == spec_bad_integer_message(tok.literal),
                }
            }),
    {
        let token = self.current_token.duplicate();
        match parse_decimal_i64(token.literal.as_str()) {
            Some(value) => Ok(Expression::Integer(IntegerLiteral { token, value })),
            None => Err(ParseError::new(bad_integer_message(self.current_token.literal.as_str()))),
        }
    }

    /// Parses a prefix expression: the current token is taken as the
    /// operator and the operand is parsed at prefix precedence.
    fn parse_prefix_expression(&mut self) -> (r: Result<Expression, ParseError>)
        requires
            old(self).wf(),
            cur_tok(old(self).inp(), old(self).scan_pos()).kind != TokenType::EOF,
        ensures
            final(self).wf(),
            final(self).inp() == old(self).inp(),
            final(self).errors@ == old(self).errors@,
            ({
                let s = old(self).inp();
                let p = old(self).scan_pos();
                let tok = cur_tok(s, p);
                match spec_parse_expression(s, next_pos(s, p), 5) {
                    Ok((operand, q)) => r is Ok && (r->Ok_0)@ == SpecExpression::Prefix(
                        SpecPrefixExpression {
                            token: tok,
                            operator: tok.literal,
                            right: Box::new(operand),
                        },
                    ) && final(self).scan_pos() == q,
                    Err((m, q)) => r is Err && (r->Err_0)@ == m && final(self).scan_pos() == q,
                }
            }),
        decreases old(self).inp().len() - old(self).scan_pos(), 0int,
    {
        let token = self.current_token.duplicate();
        let operator = self.current_token.literal.clone();
        proof {
            lemma_token_bounds(self.inp(), self.scan@);
        }
        self.next_token();
        match self.parse_expression(Precedence::PREFIX) {
            Ok(right) => Ok(
                Expression::Prefix(PrefixExpression { token, operator, right: Box::new(right) }),
            ),
            Err(e) => Err(e),
        }
    }

    /// Parses an infix expression: the current token is taken as the
    /// operator, and the right-hand operand is parsed at the operator's own
    /// precedence, which makes the grammar left-associative.
    fn parse_infix_expression(&mut self, left: Box<Expression>) -> (r: Result<
        Expression,
        ParseError,
    >)
        requires
            old(self).wf(),
            cur_tok(old(self).inp(), old(self).scan_pos()).kind != TokenType::EOF,
        ensures
            final(self).wf(),
            final(self).inp() == old(self).inp(),
            final(self).errors@ == old(self).errors@,
            ({
                let s = old(self).inp();
                let p = old(self).scan_pos();
                let op = cur_tok(s, p);
                match spec_parse_expression(s, next_pos(s, p), spec_precedence_of(op.kind)) {
                    Ok((right, q)) => r is Ok && (r->Ok_0)@ == SpecExpression::Infix(
                        SpecInfixExpression {
                            token: op,
                            left: Box::new(left@),
                            operator: op.literal,
                            right: Box::new(right),
                        },
                    ) && final(self).scan_pos() == q,
                    Err((m, q)) => r is Err && (r->Err_0)@ == m && final(self).scan_pos() == q,
                }
            }),
        decreases old(self).inp().len() - old(self).scan_pos(), 0int,
    {
        let token = self.current_token.duplicate();
        let operator = self.current_token.literal.clone();
        let precedence = self.current_precedence();
        proof {
            lemma_token_bounds(self.inp(), self.scan@);
        }
        self.next_token();
        match self.parse_expression(precedence) {
            Ok(right) => Ok(
                Expression::Infix(
                    InfixExpression { token, left, operator, right: Box::new(right) },
                ),
            ),
            Err(e) => Err(e),
        }
    }

    /// Parses one expression, per [`spec_parse_expression`]: a prefix rule
    /// for the current token builds the seed, and the extension loop folds
    /// in infix operators that bind tighter than `precedence`.
    #[verifier::loop_isolation(false)]
    fn parse_expression(&mut self, precedence: Precedence) -> (r: Result<Expression, ParseError>)
        requires
            old(self).wf(),
        ensures
            final(self).wf(),
            final(self).inp() == old(self).inp(),
            final(self).errors@ == old(self).errors@,
            ({
                let s = old(self).inp();
                let p = old(self).scan_pos();
                match spec_parse_expression(s, p, spec_prec_level(precedence)) {
                    Ok((e, q)) => r is Ok && (r->Ok_0)@ == e && final(self).scan_pos() == q,
                    Err((m, q)) => r is Err && (r->Err_0)@ == m && final(self).scan_pos() == q,
                }
            }),
        decreases old(self).inp().len() - old(self).scan_pos(), 1int,
    {
        let ghost s = self.inp();
        let ghost p0 = self.scan@;
        let ghost lvl = spec_prec_level(precedence);
        let ghost errs0 = self.errors@;
        proof {
            lemma_token_bounds(s, p0);
        }
        let mut left: Expression;
        match self.current_token.token_type {
            TokenType::IDENT => {
                left = self.parse_identifier();
            },
            TokenType::INTEGER => {
                match self.parse_integer_literal() {
                    Ok(e) => {
                        left = e;
                    },
                    Err(err) => {
                        return Err(err);
                    },
                }
            },
            TokenType::BANG | TokenType::MINUS => {
                match self.parse_prefix_expression() {
                    Ok(e) => {
                        proof {
                            lemma_parse_expression_bounds(s, next_pos(s, p0), 5);
                        }
                        left = e;
                    },
                    Err(err) => {
                        return Err(err);
                    },
                }
            },
            _ => {
                return Err(ParseError::new(no_prefix_message(self.current_token.token_type)));
            },
        }
        proof {
            assert(spec_parse_expression(s, p0, lvl) == spec_infix_extend(
                s,
                left@,
                self.scan@,
                lvl,
            ));
        }
        let my_level = prec_level(&precedence);
        while !self.peek_token_is(&TokenType::SEMICOLON) && my_level < prec_level(
            &self.peek_precedence(),
        )
            invariant
                self.wf(),
                self.inp() == s,
                self.errors@ == errs0,
                p0 <= self.scan_pos(),
                my_level as int == lvl,
                spec_infix_extend(s, left@, self.scan_pos(), lvl) == spec_parse_expression(
                    s,
                    p0,
                    lvl,
                ),
            decreases s.len() - self.scan_pos(),
        {
            let ghost q = self.scan@;
            let ghost nq = next_pos(s, q);
            proof {
                lemma_token_bounds(s, q);
                lemma_token_bounds(s, nq);
            }
            match self.peek_token.token_type {
                TokenType::PLUS | TokenType::MINUS | TokenType::SLASH | TokenType::ASTERISK
                    | TokenType::EQ | TokenType::NOTEQ | TokenType::LT | TokenType::GT => {
                    self.next_token();
                    let ghost op_kind = cur_tok(s, nq).kind;
                    proof {
                        lemma_parse_expression_bounds(s, next_pos(s, nq), spec_precedence_of(op_kind));
                    }
                    match self.parse_infix_expression(Box::new(left)) {
                        Ok(e) => {
                            left = e;
                        },
                        Err(err) => {
                            return Err(err);
                        },
                    }
                },
                _ => {
                    return Err(ParseError::new("not parsable".to_owned()));
                },
            }
        }
        Ok(left)
    }

    /// Parses a let statement, per [`spec_parse_let_statement`]: the peek
    /// token must be an identifier and the one after it `=`.  The value
    /// expression is not yet parsed; tokens are skipped up to the trailing
    /// semicolon, or the end of the input.
    #[verifier::loop_isolation(false)]
    fn parse_let_statement(&mut self) -> (r: Result<Statement, ParseError>)
        requires
            old(self).wf(),
        ensures
            final(self).wf(),
            final(self).inp() == old(self).inp(),
            final(self).errors@ == old(self).errors@,
            ({
                let s = old(self).inp();
                let p = old(self).scan_pos();
                match spec_parse_let_statement(s, p) {
                    Ok((st, q)) => r is Ok && (r->Ok_0)@ == st && final(self).scan_pos() == q,
                    Err((m, q)) => r is Err && (r->Err_0)@ == m && final(self).scan_pos() == q,
                }
            }),
    {
        let ghost s = self.inp();
        let token = self.current_token.duplicate();
        if !self.expect_peek(&TokenType::IDENT) {
            let msg = expected_message(TokenType::IDENT, self.peek_token.token_type);
            return Err(ParseError::new(msg));
        }
        let identifier = Identifier {
            token: self.current_token.duplicate(),
            value: self.current_token.literal.clone(),
        };
        if !self.expect_peek(&TokenType::ASSIGN) {
            let msg = expected_message(TokenType::ASSIGN, self.peek_token.token_type);
            return Err(ParseError::new(msg));
        }
        let ghost start = self.scan@;
        while !self.current_token_is(&TokenType::SEMICOLON) && !self.current_token_is(
            &TokenType::EOF,
        )
            invariant
                self.wf(),
                self.inp() == s,
                self.errors@ == old(self).errors@,
                spec_skip_to_semicolon(s, self.scan_pos()) == spec_skip_to_semicolon(s, start),
            decreases s.len() - self.scan_pos(),
        {
            proof {
                lemma_token_bounds(s, self.scan@);
            }
            self.next_token();
        }
        Ok(Statement::Let(LetStatement { token, name: identifier }))
    }

    /// Parses a return statement, per [`spec_parse_return_statement`].  The
    /// return-value expression is not yet parsed; tokens are skipped up to
    /// the trailing semicolon, or the end of the input.
    #[verifier::loop_isolation(false)]
    fn parse_return_statement(&mut self) -> (r: Result<Statement, ParseError>)
        requires
            old(self).wf(),
        ensures
            final(self).wf(),
            final(self).inp() == old(self).inp(),
            final(self).errors@ == old(self).errors@,
            r is Ok,
            (r->Ok_0)@ == spec_parse_return_statement(old(self).inp(), old(self).scan_pos()).0,
            final(self).scan_pos() == spec_parse_return_statement(
                old(self).inp(),
                old(self).scan_pos(),
            ).1,
    {
        let ghost s = self.inp();
        let ghost p0 = self.scan@;
        let token = self.current_token.duplicate();
        while !self.current_token_is(&TokenType::SEMICOLON) && !self.current_token_is(
            &TokenType::EOF,
        )
            invariant
                self.wf(),
                self.inp() == s,
                self.errors@ == old(self).errors@,
                spec_skip_to_semicolon(s, self.scan_pos()) == spec_skip_to_semicolon(s, p0),
            decreases s.len() - self.scan_pos(),
        {
            proof {
                lemma_token_bounds(s, self.scan@);
            }
            self.next_token();
        }
        Ok(Statement::Return(ReturnStatement { token }))
    }

    /// Parses an expression statement, per
    /// [`spec_parse_expression_statement`]: one expression at the lowest
    /// precedence; a trailing semicolon is consumed if present, so that the
    /// semicolon is optional after the last statement of the input.
    fn parse_expression_statement(&mut self) -> (r: Result<Statement, ParseError>)
        requires
            old(self).wf(),
        ensures
            final(self).wf(),
            final(self).inp() == old(self).inp(),
            final(self).errors@ == old(self).errors@,
            ({
                let s = old(self).inp();
                let p = old(self).scan_pos();
                match spec_parse_expression_statement(s, p) {
                    Ok((st, q)) => r is Ok && (r->Ok_0)@ == st && final(self).scan_pos() == q,
                    Err((m, q)) => r is Err && (r->Err_0)@ == m && final(self).scan_pos() == q,
                }
            }),
    {
        let ghost s = self.inp();
        let ghost p0 = self.scan@;
        let expression = match self.parse_expression(Precedence::LOWEST) {
            Ok(e) => Ok(Statement::Expression(e)),
            Err(err) => Err(err),
        };
        proof {
            lemma_parse_expression_bounds(s, p0, 0);
            lemma_token_bounds(s, self.scan@);
        }
        if self.peek_token_is(&TokenType::SEMICOLON) {
            self.next_token();
        }
        expression
    }

    /// Parses one statement, dispatched on the current token, per
    /// [`spec_parse_statement`].
    fn parse_statement(&mut self) -> (r: Result<Box<Statement>, ParseError>)
        requires
            old(self).wf(),
        ensures
            final(self).wf(),
            final(self).inp() == old(self).inp(),
            final(self).errors@ == old(self).errors@,
            ({
                let s = old(self).inp();
                let p = old(self).scan_pos();
                match spec_parse_statement(s, p) {
                    Ok((st, q)) => r is Ok && (r->Ok_0)@ == st && final(self).scan_pos() == q,
                    Err((m, q)) => r is Err && (r->Err_0)@ == m && final(self).scan_pos() == q,
                }
            }),
    {
        match self.current_token.token_type {
            TokenType::LET => match self.parse_let_statement() {
                Ok(st) => Ok(Box::new(st)),
                Err(e) => Err(e),
            },
            TokenType::RETURN => match self.parse_return_statement() {
                Ok(st) => Ok(Box::new(st)),
                Err(e) => Err(e),
            },
            _ => match self.parse_expression_statement() {
                Ok(st) => Ok(Box::new(st)),
                Err(e) => Err(e),
            },
        }
    }

    /// Parses the whole input, per [`spec_parse_program`]: one statement per
    /// step until the current token is end-of-input.  A statement that fails
    /// to parse contributes one error and parsing continues at the next
    /// token, so the program returned is everything that did parse; the
    /// caller must inspect the error list to know whether the parse fully
    /// succeeded.
    #[verifier::loop_isolation(false)]
    pub fn parse_program(&mut self) -> (program: Program)
        requires
            old(self).wf(),
        ensures
            final(self).wf(),
            final(self).inp() == old(self).inp(),
            program@ == spec_parse_program(old(self).inp(), old(self).scan_pos()).0,
            final(self).errors_view() == old(self).errors_view() + spec_parse_program(
                old(self).inp(),
                old(self).scan_pos(),
            ).1,
            cur_tok(final(self).inp(), final(self).scan_pos()).kind == TokenType::EOF,
    {
        let ghost s = self.inp();
        let ghost p0 = self.scan@;
        let ghost errs0 = self.errors@;
        let mut statements: Vec<Box<Statement>> = Vec::new();
        proof {
            assert(statement_views(statements@) =~= Seq::<SpecStatement>::empty());
        }
        while !self.current_token_is(&TokenType::EOF)
            invariant
                self.wf(),
                self.inp() == s,
                spec_parse_program(s, p0).0 == statement_views(statements@) + spec_parse_program(
                    s,
                    self.scan_pos(),
                ).0,
                error_views(errs0) + spec_parse_program(s, p0).1 == error_views(self.errors@)
                    + spec_parse_program(s, self.scan_pos()).1,
            decreases s.len() - self.scan_pos(),
        {
            let ghost q0 = self.scan@;
            proof {
                lemma_token_bounds(s, q0);
                lemma_parse_statement_bounds(s, q0);
            }
            match self.parse_statement() {
                Ok(stmt) => {
                    let ghost old_statements = statements@;
                    statements.push(stmt);
                    proof {
                        assert(statement_views(statements@) =~= statement_views(
                            old_statements,
                        ).push(statements@.last()@));
                    }
                },
                Err(error) => {
                    let ghost old_errors = self.errors@;
                    self.errors.push(error);
                    proof {
                        assert(error_views(self.errors@) =~= error_views(old_errors).push(
                            self.errors@.last()@,
                        ));
                    }
                },
            }
            proof {
                lemma_token_bounds(s, self.scan@);
            }
            self.next_token();
            proof {
                assert(spec_parse_program(s, p0).0 == statement_views(statements@)
                    + spec_parse_program(s, self.scan@).0);
                assert(error_views(errs0) + spec_parse_program(s, p0).1 == error_views(
                    self.errors@,
                ) + spec_parse_program(s, self.scan@).1);
            }
        }
        proof {
            assert(statement_views(statements@) + Seq::<SpecStatement>::empty() =~= statement_views(
                statements@,
            ));
            assert(error_views(self.errors@) + Seq::<Seq<char>>::empty() =~= error_views(
                self.errors@,
            ));
        }
        let program = Program { statements };
        proof {
            assert(program@ =~= statement_views(program.statements@));
        }
        program
    }

    /// The precedence of the current token.
    fn current_precedence(&self) -> (r: Precedence)
        requires
            self.wf(),
        ensures
            spec_prec_level(r) == spec_precedence_of(cur_tok(self.inp(), self.scan_pos()).kind),
    {
        self.precedence_for(&self.current_token.token_type)
    }
}

} // verus!

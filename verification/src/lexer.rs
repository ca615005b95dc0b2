//! The lexer: turns character input into a token stream, one token per call.
//!
//! The mathematical model works on the input as a `Seq<char>` and a scan
//! position.  `ws_end` gives the position after the whitespace run,
//! `lex_at` gives the token starting at a whitespace-free position together
//! with the position after it, and `cur_tok` / `next_pos` compose the two.
//! `Lexer::next_token` is proved to return exactly `cur_tok` at its current
//! position and to advance to `next_pos`.

use vstd::prelude::*;

verus! {

use crate::text::{
    is_ws_char,
    is_letter_char,
    is_digit_char,
    char_is_ws,
    char_is_letter,
    char_is_digit,
    char_to_string,
    push_char,
};
use crate::token::{Token, TokenType, SpecToken, spec_keyword, lookup_identifier};
use vstd::string::StrSliceExecFns;

/// The position of the first non-whitespace character at or after `p`.
pub open spec fn ws_end(s: Seq<char>, p: int) -> int
    decreases s.len() - p,
{
    if 0 <= p < s.len() && is_ws_char(s[p]) {
        ws_end(s, p + 1)
    } else {
        p
    }
}

/// The position of the first non-identifier character at or after `p`.
pub open spec fn ident_end(s: Seq<char>, p: int) -> int
    decreases s.len() - p,
{
    if 0 <= p < s.len() && is_letter_char(s[p]) {
        ident_end(s, p + 1)
    } else {
        p
    }
}

/// The position of the first non-digit character at or after `p`.
pub open spec fn number_end(s: Seq<char>, p: int) -> int
    decreases s.len() - p,
{
    if 0 <= p < s.len() && is_digit_char(s[p]) {
        number_end(s, p + 1)
    } else {
        p
    }
}

/// The single-character tokens other than `=` and `!`, which need lookahead.
pub open spec fn is_single_char(c: char) -> bool {
    c == '+' || c == '-' || c == ';' || c == '(' || c == ')' || c == ',' || c == '{' || c == '}'
        || c == '/' || c == '*' || c == '<' || c == '>'
}

/// The category of a single-character token.
pub open spec fn spec_single_kind(c: char) -> TokenType {
    if c == '+' {
        TokenType::PLUS
    } else if c == '-' {
        TokenType::MINUS
    } else if c == ';' {
        TokenType::SEMICOLON
    } else if c == '(' {
        TokenType::LEFTPAREN
    } else if c == ')' {
        TokenType::RIGHTPAREN
    } else if c == ',' {
        TokenType::COMMA
    } else if c == '{' {
        TokenType::LEFTBRACE
    } else if c == '}' {
        TokenType::RIGHTBRACE
    } else if c == '/' {
        TokenType::SLASH
    } else if c == '*' {
        TokenType::ASTERISK
    } else if c == '<' {
        TokenType::LT
    } else {
        TokenType::GT
    }
}

/// The token that starts at the whitespace-free position `i`, and the
/// position just after it.  Past the end of the input the token is
/// end-of-input and the position does not move.
pub open spec fn lex_at(s: Seq<char>, i: int) -> (SpecToken, int) {
    if !(0 <= i < s.len()) {
        (SpecToken { kind: TokenType::EOF, literal: Seq::empty() }, i)
    } else {
        let c = s[i];
        if c == '=' {
            if i + 1 < s.len() && s[i + 1] == '=' {
                (SpecToken { kind: TokenType::EQ, literal: "=="@ }, i + 2)
            } else {
                (SpecToken { kind: TokenType::ASSIGN, literal: seq![c] }, i + 1)
            }
        } else if c == '!' {
            if i + 1 < s.len() && s[i + 1] == '=' {
                (SpecToken { kind: TokenType::NOTEQ, literal: "!="@ }, i + 2)
            } else {
                (SpecToken { kind: TokenType::BANG, literal: seq![c] }, i + 1)
            }
        } else if is_single_char(c) {
            (SpecToken { kind: spec_single_kind(c), literal: seq![c] }, i + 1)
        } else if is_letter_char(c) {
            let j = ident_end(s, i + 1);
            (SpecToken { kind: spec_keyword(s.subrange(i, j)), literal: s.subrange(i, j) }, j)
        } else if is_digit_char(c) {
            let j = number_end(s, i + 1);
            (SpecToken { kind: TokenType::INTEGER, literal: s.subrange(i, j) }, j)
        } else {
            (SpecToken { kind: TokenType::ILLEGAL, literal: seq![c] }, i + 1)
        }
    }
}

/// The token at scan position `p`, whitespace skipped first.
pub open spec fn cur_tok(s: Seq<char>, p: int) -> SpecToken {
    lex_at(s, ws_end(s, p)).0
}

/// The scan position just after the token at `p`.
pub open spec fn next_pos(s: Seq<char>, p: int) -> int {
    lex_at(s, ws_end(s, p)).1
}

/// Whitespace skipping stays inside the input, skips only whitespace, and
/// stops at the first non-whitespace character.
pub proof fn lemma_ws_end_bounds(s: Seq<char>, p: int)
    requires
        0 <= p <= s.len(),
    ensures
        p <= ws_end(s, p) <= s.len(),
        forall|k: int| p <= k < ws_end(s, p) ==> is_ws_char(s[k]),
        ws_end(s, p) < s.len() ==> !is_ws_char(s[ws_end(s, p)]),
    decreases s.len() - p,
{
    if 0 <= p < s.len() && is_ws_char(s[p]) {
        lemma_ws_end_bounds(s, p + 1);
    }
}

/// An identifier run stays inside the input and holds letters only.
pub proof fn lemma_ident_end_bounds(s: Seq<char>, p: int)
    requires
        0 <= p <= s.len(),
    ensures
        p <= ident_end(s, p) <= s.len(),
        forall|k: int| p <= k < ident_end(s, p) ==> is_letter_char(s[k]),
        ident_end(s, p) < s.len() ==> !is_letter_char(s[ident_end(s, p)]),
    decreases s.len() - p,
{
    if 0 <= p < s.len() && is_letter_char(s[p]) {
        lemma_ident_end_bounds(s, p + 1);
    }
}

/// A digit run stays inside the input and holds digits only.
pub proof fn lemma_number_end_bounds(s: Seq<char>, p: int)
    requires
        0 <= p <= s.len(),
    ensures
        p <= number_end(s, p) <= s.len(),
        forall|k: int| p <= k < number_end(s, p) ==> is_digit_char(s[k]),
        number_end(s, p) < s.len() ==> !is_digit_char(s[number_end(s, p)]),
    decreases s.len() - p,
{
    if 0 <= p < s.len() && is_digit_char(s[p]) {
        lemma_number_end_bounds(s, p + 1);
    }
}

/// Every token ends inside the input; a token other than end-of-input
/// strictly advances the scan position, and the end-of-input token appears
/// exactly when the rest of the input is whitespace, whereupon the position
/// rests at the end.
pub proof fn lemma_token_bounds(s: Seq<char>, p: int)
    requires
        0 <= p <= s.len(),
    ensures
        p <= ws_end(s, p) <= next_pos(s, p) <= s.len(),
        cur_tok(s, p).kind != TokenType::EOF <==> ws_end(s, p) < s.len(),
        cur_tok(s, p).kind != TokenType::EOF ==> ws_end(s, p) < next_pos(s, p),
        cur_tok(s, p).kind == TokenType::EOF ==> next_pos(s, p) == s.len(),
{
    lemma_ws_end_bounds(s, p);
    let j = ws_end(s, p);
    if j < s.len() {
        let c = s[j];
        if c == '=' || c == '!' || is_single_char(c) {
        } else if is_letter_char(c) {
            lemma_ident_end_bounds(s, j + 1);
        } else if is_digit_char(c) {
            lemma_number_end_bounds(s, j + 1);
        }
    }
}

/// The lexer: the input text and a cursor, from which `next_token` produces
/// one token per call.
pub struct Lexer<'a> {
    input: &'a str,
    pos: usize,
}

impl<'a> Lexer<'a> {
    /// The input as a character sequence.
    pub closed spec fn inp(self) -> Seq<char> {
        self.input@
    }

    /// The scan position of the cursor.
    pub closed spec fn position(self) -> int {
        self.pos as int
    }

    /// The cursor never leaves the input.
    pub open spec fn wf(self) -> bool {
        0 <= self.position() <= self.inp().len()
    }

    pub fn new(input: &'a str) -> (l: Lexer<'a>)
        ensures
            l.wf(),
            l.inp() == input@,
            l.position() == 0,
    {
        Lexer { input, pos: 0 }
    }

    /// Returns the character under the cursor and advances past it, or
    /// nothing at the end of the input.
    pub fn read_char(&mut self) -> (r: Option<char>)
        requires
            old(self).wf(),
        ensures
            final(self).wf(),
            final(self).inp() == old(self).inp(),
            old(self).position() < old(self).inp().len() ==> r == Some(
                old(self).inp()[old(self).position()],
            ) && final(self).position() == old(self).position() + 1,
            old(self).position() >= old(self).inp().len() ==> r == None::<char>
                && final(self).position() == old(self).position(),
    {
        let n = self.input.unicode_len();
        if self.pos < n {
            let c = self.input.get_char(self.pos);
            self.pos = self.pos + 1;
            Some(c)
        } else {
            None
        }
    }

    /// Returns the character under the cursor without advancing.
    fn peek_char(&self) -> (r: Option<char>)
        requires
            self.wf(),
        ensures
            self.position() < self.inp().len() ==> r == Some(self.inp()[self.position()]),
            self.position() >= self.inp().len() ==> r == None::<char>,
    {
        let n = self.input.unicode_len();
        if self.pos < n {
            Some(self.input.get_char(self.pos))
        } else {
            None
        }
    }

    /// Advances the cursor past the whitespace run under it.
    pub fn skip_whitespace(&mut self)
        requires
            old(self).wf(),
        ensures
            final(self).wf(),
            final(self).inp() == old(self).inp(),
            final(self).position() == ws_end(old(self).inp(), old(self).position()),
        decreases old(self).inp().len() - old(self).position(),
    {
        match self.peek_char() {
            Some(c) => {
                if char_is_ws(c) {
                    let _ = self.read_char();
                    self.skip_whitespace();
                }
            },
            None => {},
        }
    }

    /// Reads the rest of an identifier whose first character, `c`, has
    /// already been consumed: the letters under the cursor are appended to
    /// `c` and the cursor stops at the first non-letter.
    pub fn read_identifier(&mut self, c: char) -> (r: String)
        requires
            old(self).wf(),
        ensures
            final(self).wf(),
            final(self).inp() == old(self).inp(),
            final(self).position() == ident_end(old(self).inp(), old(self).position()),
            r@ == seq![c] + old(self).inp().subrange(
                old(self).position(),
                ident_end(old(self).inp(), old(self).position()),
            ),
    {
        let mut ident = char_to_string(c);
        let ghost s = self.inp();
        let ghost p0 = self.position();
        proof {
            assert(ident@ =~= seq![c] + s.subrange(p0, p0));
        }
        loop
            invariant
                self.wf(),
                self.inp() == s,
                0 <= p0 <= self.position() <= s.len(),
                ident_end(s, self.position()) == ident_end(s, p0),
                ident@ == seq![c] + s.subrange(p0, self.position()),
            ensures
                self.wf(),
                self.inp() == s,
                self.position() == ident_end(s, p0),
                ident@ == seq![c] + s.subrange(p0, self.position()),
            decreases s.len() - self.position(),
        {
            let ghost p = self.position();
            match self.peek_char() {
                Some(ch) => {
                    if char_is_letter(ch) {
                        let got = self.read_char();
                        push_char(&mut ident, got.unwrap());
                        proof {
                            assert(ident@ =~= seq![c] + s.subrange(p0, p + 1));
                        }
                    } else {
                        break;
                    }
                },
                None => {
                    break;
                },
            }
        }
        ident
    }

    /// Reads the rest of a number whose first digit, `c`, has already been
    /// consumed, stopping at the first non-digit.
    pub fn read_number(&mut self, c: char) -> (r: String)
        requires
            old(self).wf(),
        ensures
            final(self).wf(),
            final(self).inp() == old(self).inp(),
            final(self).position() == number_end(old(self).inp(), old(self).position()),
            r@ == seq![c] + old(self).inp().subrange(
                old(self).position(),
                number_end(old(self).inp(), old(self).position()),
            ),
    {
        let mut number = char_to_string(c);
        let ghost s = self.inp();
        let ghost p0 = self.position();
        proof {
            assert(number@ =~= seq![c] + s.subrange(p0, p0));
        }
        loop
            invariant
                self.wf(),
                self.inp() == s,
                0 <= p0 <= self.position() <= s.len(),
                number_end(s, self.position()) == number_end(s, p0),
                number@ == seq![c] + s.subrange(p0, self.position()),
            ensures
                self.wf(),
                self.inp() == s,
                self.position() == number_end(s, p0),
                number@ == seq![c] + s.subrange(p0, self.position()),
            decreases s.len() - self.position(),
        {
            let ghost p = self.position();
            match self.peek_char() {
                Some(ch) => {
                    if char_is_digit(ch) {
                        let got = self.read_char();
                        push_char(&mut number, got.unwrap());
                        proof {
                            assert(number@ =~= seq![c] + s.subrange(p0, p + 1));
                        }
                    } else {
                        break;
                    }
                },
                None => {
                    break;
                },
            }
        }
        number
    }

    /// The identifier characters: alphabetic characters and the underscore.
    fn is_letter(c: char) -> (r: bool)
        ensures
            r == is_letter_char(c),
    {
        char_is_letter(c)
    }

    /// Skips whitespace, then returns the token under the cursor and
    /// advances past it.  At the end of the input the token is end-of-input,
    /// and further calls return it again without moving.
    pub fn next_token(&mut self) -> (t: Token)
        requires
            old(self).wf(),
        ensures
            final(self).wf(),
            final(self).inp() == old(self).inp(),
            t@ == cur_tok(old(self).inp(), old(self).position()),
            final(self).position() == next_pos(old(self).inp(), old(self).position()),
    {
        self.skip_whitespace();
        let ghost s = self.inp();
        let ghost j = self.position();
        match self.read_char() {
            None => Token::new(TokenType::EOF, String::new()),
            Some(c) => {
                if c == '=' {
                    let is_eq = match self.peek_char() {
                        Some(p) => p == '=',
                        None => false,
                    };
                    if is_eq {
                        let _ = self.read_char();
                        Token::new(TokenType::EQ, "==".to_owned())
                    } else {
                        Token::new(TokenType::ASSIGN, char_to_string(c))
                    }
                } else if c == '!' {
                    let is_noteq = match self.peek_char() {
                        Some(p) => p == '=',
                        None => false,
                    };
                    if is_noteq {
                        let _ = self.read_char();
                        Token::new(TokenType::NOTEQ, "!=".to_owned())
                    } else {
                        Token::new(TokenType::BANG, char_to_string(c))
                    }
                } else if c == '+' || c == '-' || c == ';' || c == '(' || c == ')' || c == ','
                    || c == '{' || c == '}' || c == '/' || c == '*' || c == '<' || c == '>' {
                    let token_type = if c == '+' {
                        TokenType::PLUS
                    } else if c == '-' {
                        TokenType::MINUS
                    } else if c == ';' {
                        TokenType::SEMICOLON
                    } else if c == '(' {
                        TokenType::LEFTPAREN
                    } else if c == ')' {
                        TokenType::RIGHTPAREN
                    } else if c == ',' {
                        TokenType::COMMA
                    } else if c == '{' {
                        TokenType::LEFTBRACE
                    } else if c == '}' {
                        TokenType::RIGHTBRACE
                    } else if c == '/' {
                        TokenType::SLASH
                    } else if c == '*' {
                        TokenType::ASTERISK
                    } else if c == '<' {
                        TokenType::LT
                    } else {
                        TokenType::GT
                    };
                    Token::new(token_type, char_to_string(c))
                } else if Self::is_letter(c) {
                    let literal = self.read_identifier(c);
                    proof {
                        lemma_ident_end_bounds(s, j + 1);
                        assert(literal@ =~= s.subrange(j, ident_end(s, j + 1)));
                    }
                    let token_type = lookup_identifier(literal.as_str());
                    Token::new(token_type, literal)
                } else if char_is_digit(c) {
                    let literal = self.read_number(c);
                    proof {
                        lemma_number_end_bounds(s, j + 1);
                        assert(literal@ =~= s.subrange(j, number_end(s, j + 1)));
                    }
                    Token::new(TokenType::INTEGER, literal)
                } else {
                    Token::new(TokenType::ILLEGAL, char_to_string(c))
                }
            },
        }
    }
}

/// The operator and delimiter characters, `=` and `!` included.
pub open spec fn is_operator_char(c: char) -> bool {
    c == '=' || c == '!' || is_single_char(c)
}

/// The category of a one-character operator or delimiter standing alone.
pub open spec fn single_char_token_kind(c: char) -> TokenType {
    if c == '=' {
        TokenType::ASSIGN
    } else if c == '!' {
        TokenType::BANG
    } else {
        spec_single_kind(c)
    }
}

/// For a one-character input holding an operator or delimiter, the first
/// token is the matching operator token, its literal is the whole input, and
/// the token after it is end-of-input.
pub proof fn lemma_single_char_operator_token(s: Seq<char>)
    requires
        s.len() == 1,
        is_operator_char(s[0]),
    ensures
        cur_tok(s, 0).kind == single_char_token_kind(s[0]),
        cur_tok(s, 0).literal == s,
        next_pos(s, 0) == 1,
        cur_tok(s, next_pos(s, 0)).kind == TokenType::EOF,
{
    assert(!is_ws_char(s[0]));
    assert(ws_end(s, 0) == 0);
    assert(cur_tok(s, 0).literal =~= s);
    assert(ws_end(s, 1) == 1);
}

/// An identifier token is never empty: its literal is the non-empty run of
/// letters that the lexer read, so identifier names in the syntax tree are
/// never empty strings.
pub proof fn lemma_identifier_literal_nonempty(s: Seq<char>, p: int)
    requires
        0 <= p <= s.len(),
        cur_tok(s, p).kind == TokenType::IDENT,
    ensures
        cur_tok(s, p).literal.len() >= 1,
{
    lemma_ws_end_bounds(s, p);
    let j = ws_end(s, p);
    if j < s.len() && is_letter_char(s[j]) {
        lemma_ident_end_bounds(s, j + 1);
    }
}

/// Once the token at a position is end-of-input, the scan position rests at
/// the end of the input and every further token is again end-of-input with
/// an empty literal: draining past the end is idempotent.
pub proof fn lemma_end_of_input_idempotent(s: Seq<char>, p: int)
    requires
        0 <= p <= s.len(),
        cur_tok(s, p).kind == TokenType::EOF,
    ensures
        next_pos(s, p) == s.len(),
        cur_tok(s, next_pos(s, p)).kind == TokenType::EOF,
        cur_tok(s, next_pos(s, p)).literal == Seq::<char>::empty(),
        next_pos(s, next_pos(s, p)) == s.len(),
{
    lemma_token_bounds(s, p);
    assert(ws_end(s, s.len() as int) == s.len());
}

} // verus!

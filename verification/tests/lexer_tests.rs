use rinterpreter::lexer::Lexer;
use rinterpreter::token::{Token, TokenType};

#[test]
fn test_next_token() {
    let input = r#"let five = 5;
let ten = 10;
let add = fn(x, y) {
  x + y;
};
let result = add(five, ten);
!-/*5;
5 < 10 > 5;
if (5 < 10) {
  return true;
} else {
  return false;
}
10 == 10;
10 != 9;
"#;
    let mut tests = Vec::new();
    tests.push(Token::new(TokenType::LET, "let".to_string()));
    tests.push(Token::new(TokenType::IDENT, "five".to_string()));
    tests.push(Token::new(TokenType::ASSIGN, "=".to_string()));
    tests.push(Token::new(TokenType::INTEGER, "5".to_string()));
    tests.push(Token::new(TokenType::SEMICOLON, ";".to_string()));
    tests.push(Token::new(TokenType::LET, "let".to_string()));
    tests.push(Token::new(TokenType::IDENT, "ten".to_string()));
    tests.push(Token::new(TokenType::ASSIGN, "=".to_string()));
    tests.push(Token::new(TokenType::INTEGER, "10".to_string()));
    tests.push(Token::new(TokenType::SEMICOLON, ";".to_string()));
    tests.push(Token::new(TokenType::LET, "let".to_string()));
    tests.push(Token::new(TokenType::IDENT, "add".to_string()));
    tests.push(Token::new(TokenType::ASSIGN, "=".to_string()));
    tests.push(Token::new(TokenType::FUNCTION, "fn".to_string()));
    tests.push(Token::new(TokenType::LEFTPAREN, "(".to_string()));
    tests.push(Token::new(TokenType::IDENT, "x".to_string()));
    tests.push(Token::new(TokenType::COMMA, ",".to_string()));
    tests.push(Token::new(TokenType::IDENT, "y".to_string()));
    tests.push(Token::new(TokenType::RIGHTPAREN, ")".to_string()));
    tests.push(Token::new(TokenType::LEFTBRACE, "{".to_string()));
    tests.push(Token::new(TokenType::IDENT, "x".to_string()));
    tests.push(Token::new(TokenType::PLUS, "+".to_string()));
    tests.push(Token::new(TokenType::IDENT, "y".to_string()));
    tests.push(Token::new(TokenType::SEMICOLON, ";".to_string()));
    tests.push(Token::new(TokenType::RIGHTBRACE, "}".to_string()));
    tests.push(Token::new(TokenType::SEMICOLON, ";".to_string()));
    tests.push(Token::new(TokenType::LET, "let".to_string()));
    tests.push(Token::new(TokenType::IDENT, "result".to_string()));
    tests.push(Token::new(TokenType::ASSIGN, "=".to_string()));
    tests.push(Token::new(TokenType::IDENT, "add".to_string()));
    tests.push(Token::new(TokenType::LEFTPAREN, "(".to_string()));
    tests.push(Token::new(TokenType::IDENT, "five".to_string()));
    tests.push(Token::new(TokenType::COMMA, ",".to_string()));
    tests.push(Token::new(TokenType::IDENT, "ten".to_string()));
    tests.push(Token::new(TokenType::RIGHTPAREN, ")".to_string()));
    tests.push(Token::new(TokenType::SEMICOLON, ";".to_string()));
    tests.push(Token::new(TokenType::BANG, "!".to_string()));
    tests.push(Token::new(TokenType::MINUS, "-".to_string()));
    tests.push(Token::new(TokenType::SLASH, "/".to_string()));
    tests.push(Token::new(TokenType::ASTERISK, "*".to_string()));
    tests.push(Token::new(TokenType::INTEGER, "5".to_string()));
    tests.push(Token::new(TokenType::SEMICOLON, ";".to_string()));
    tests.push(Token::new(TokenType::INTEGER, "5".to_string()));
    tests.push(Token::new(TokenType::LT, "<".to_string()));
    tests.push(Token::new(TokenType::INTEGER, "10".to_string()));
    tests.push(Token::new(TokenType::GT, ">".to_string()));
    tests.push(Token::new(TokenType::INTEGER, "5".to_string()));
    tests.push(Token::new(TokenType::SEMICOLON, ";".to_string()));
    tests.push(Token::new(TokenType::IF, "if".to_string()));
    tests.push(Token::new(TokenType::LEFTPAREN, "(".to_string()));
    tests.push(Token::new(TokenType::INTEGER, "5".to_string()));
    tests.push(Token::new(TokenType::LT, "<".to_string()));
    tests.push(Token::new(TokenType::INTEGER, "10".to_string()));
    tests.push(Token::new(TokenType::RIGHTPAREN, ")".to_string()));
    tests.push(Token::new(TokenType::LEFTBRACE, "{".to_string()));
    tests.push(Token::new(TokenType::RETURN, "return".to_string()));
    tests.push(Token::new(TokenType::TRUE, "true".to_string()));
    tests.push(Token::new(TokenType::SEMICOLON, ";".to_string()));
    tests.push(Token::new(TokenType::RIGHTBRACE, "}".to_string()));
    tests.push(Token::new(TokenType::ELSE, "else".to_string()));
    tests.push(Token::new(TokenType::LEFTBRACE, "{".to_string()));
    tests.push(Token::new(TokenType::RETURN, "return".to_string()));
    tests.push(Token::new(TokenType::FALSE, "false".to_string()));
    tests.push(Token::new(TokenType::SEMICOLON, ";".to_string()));
    tests.push(Token::new(TokenType::RIGHTBRACE, "}".to_string()));
    tests.push(Token::new(TokenType::INTEGER, "10".to_string()));
    tests.push(Token::new(TokenType::EQ, "==".to_string()));
    tests.push(Token::new(TokenType::INTEGER, "10".to_string()));
    tests.push(Token::new(TokenType::SEMICOLON, ";".to_string()));
    tests.push(Token::new(TokenType::INTEGER, "10".to_string()));
    tests.push(Token::new(TokenType::NOTEQ, "!=".to_string()));
    tests.push(Token::new(TokenType::INTEGER, "9".to_string()));
    tests.push(Token::new(TokenType::SEMICOLON, ";".to_string()));

    let mut lexer = Lexer::new(&input);

    for test in tests {
        let token = &lexer.next_token();
        assert_eq!(token.literal, test.literal);
        assert_eq!(test.token_type, token.token_type);
    }
}

#[test]
fn single_char_operator_tokens() {
    // every one-character operator or delimiter input lexes to exactly one
    // matching token whose literal is the input, followed by end-of-input
    let tests = vec![
        ("=", TokenType::ASSIGN),
        ("!", TokenType::BANG),
        ("+", TokenType::PLUS),
        ("-", TokenType::MINUS),
        (";", TokenType::SEMICOLON),
        ("(", TokenType::LEFTPAREN),
        (")", TokenType::RIGHTPAREN),
        (",", TokenType::COMMA),
        ("{", TokenType::LEFTBRACE),
        ("}", TokenType::RIGHTBRACE),
        ("/", TokenType::SLASH),
        ("*", TokenType::ASTERISK),
        ("<", TokenType::LT),
        (">", TokenType::GT),
    ];
    for (input, expected) in tests {
        let mut lexer = Lexer::new(input);
        let token = lexer.next_token();
        assert_eq!(token.token_type, expected);
        assert_eq!(token.literal, input);
        assert_eq!(lexer.next_token().token_type, TokenType::EOF);
    }
}

#[test]
fn end_of_input_is_idempotent() {
    // repeated calls past the end of the input keep returning a fresh
    // end-of-input token and never panic
    let mut lexer = Lexer::new("x");
    assert_eq!(lexer.next_token().token_type, TokenType::IDENT);
    for _ in 0..5 {
        let token = lexer.next_token();
        assert_eq!(token.token_type, TokenType::EOF);
        assert_eq!(token.literal, "");
    }
}

#[test]
fn empty_input_lexes_to_end_of_input() {
    let mut lexer = Lexer::new("");
    let token = lexer.next_token();
    assert_eq!(token.token_type, TokenType::EOF);
    assert_eq!(token.literal, "");
}

#[test]
fn whitespace_is_skipped_and_never_returned() {
    let mut lexer = Lexer::new(" \t\r\n  42 \n ");
    let token = lexer.next_token();
    assert_eq!(token.token_type, TokenType::INTEGER);
    assert_eq!(token.literal, "42");
    assert_eq!(lexer.next_token().token_type, TokenType::EOF);
}

#[test]
fn unrecognized_character_becomes_illegal_token() {
    let mut lexer = Lexer::new("@");
    let token = lexer.next_token();
    assert_eq!(token.token_type, TokenType::ILLEGAL);
    assert_eq!(token.literal, "@");
    assert_eq!(lexer.next_token().token_type, TokenType::EOF);
}

#[test]
fn read_char_walks_the_input() {
    let mut lexer = Lexer::new("ab");
    assert_eq!(lexer.read_char(), Some('a'));
    assert_eq!(lexer.read_char(), Some('b'));
    assert_eq!(lexer.read_char(), None);
    assert_eq!(lexer.read_char(), None);
}

#[test]
fn read_identifier_takes_the_letter_run() {
    let mut lexer = Lexer::new("bc_d12");
    assert_eq!(lexer.read_identifier('a'), "abc_d");
    // the cursor now stands at the first non-letter
    let token = lexer.next_token();
    assert_eq!(token.token_type, TokenType::INTEGER);
    assert_eq!(token.literal, "12");
}

#[test]
fn read_number_takes_the_digit_run() {
    let mut lexer = Lexer::new("23x");
    assert_eq!(lexer.read_number('1'), "123");
    let token = lexer.next_token();
    assert_eq!(token.token_type, TokenType::IDENT);
    assert_eq!(token.literal, "x");
}

#[test]
fn skip_whitespace_stops_at_content() {
    let mut lexer = Lexer::new("   zz");
    lexer.skip_whitespace();
    assert_eq!(lexer.read_char(), Some('z'));
}

#[test]
fn non_ascii_letters_are_identifier_characters() {
    let mut lexer = Lexer::new("café über;");
    let token = lexer.next_token();
    assert_eq!(token.token_type, TokenType::IDENT);
    assert_eq!(token.literal, "café");
    let token = lexer.next_token();
    assert_eq!(token.token_type, TokenType::IDENT);
    assert_eq!(token.literal, "über");
    assert_eq!(lexer.next_token().token_type, TokenType::SEMICOLON);
    assert_eq!(lexer.next_token().token_type, TokenType::EOF);
}

#[test]
fn non_alphabetic_non_ascii_character_is_illegal() {
    // '€' has no Unicode Alphabetic property, so it is not an identifier
    // character and no other rule recognizes it
    let mut lexer = Lexer::new("€");
    let token = lexer.next_token();
    assert_eq!(token.token_type, TokenType::ILLEGAL);
    assert_eq!(token.literal, "€");
    assert_eq!(lexer.next_token().token_type, TokenType::EOF);
}

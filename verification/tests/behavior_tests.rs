use rinterpreter::ast::Statement;
use rinterpreter::lexer::Lexer;
use rinterpreter::parser::Parser;

#[test]
fn let_statement_carries_the_bound_name() {
    let lexer = Lexer::new("let five = 5;");
    let mut parser = Parser::new(lexer);
    let program = parser.parse_program();

    assert_eq!(parser.errors.len(), 0);
    assert_eq!(program.statements.len(), 1);
    match program.statements[0].as_ref() {
        Statement::Let(let_statement) => {
            assert_eq!(let_statement.name.value, "five");
            assert_eq!(let_statement.token.literal, "let");
        }
        other => panic!("expected a let statement, got {:?}", other),
    }
}

#[test]
fn rendering_an_identifier_statement_round_trips() {
    let lexer = Lexer::new("foobar;");
    let mut parser = Parser::new(lexer);
    let program = parser.parse_program();

    assert_eq!(parser.errors.len(), 0);
    assert_eq!(program.to_string(), "foobar");
}

#[test]
fn let_without_a_name_reports_the_missing_identifier() {
    let lexer = Lexer::new("let = 10;");
    let mut parser = Parser::new(lexer);
    let program = parser.parse_program();

    // the first error names the missing identifier
    assert_eq!(
        parser.errors[0].message(),
        "expected next token to be IDENT, got ASSIGN instead."
    );
    // no let statement comes out of the malformed line; recovery resumes at
    // the next token, so `=` then fails to start an expression and `10`
    // parses as an expression statement of its own
    assert!(program
        .statements
        .iter()
        .all(|s| !matches!(s.as_ref(), Statement::Let(_))));
    assert_eq!(parser.errors.len(), 2);
    assert_eq!(
        parser.errors[1].message(),
        "no prefix parse function for ASSIGN found"
    );
    assert_eq!(program.to_string(), "10");
}

#[test]
fn let_without_assign_reports_the_missing_assign() {
    let lexer = Lexer::new("let x 5;");
    let mut parser = Parser::new(lexer);
    parser.parse_program();

    assert_eq!(
        parser.errors[0].message(),
        "expected next token to be ASSIGN, got INTEGER instead."
    );
}

#[test]
fn empty_input_parses_to_an_empty_program() {
    let lexer = Lexer::new("");
    let mut parser = Parser::new(lexer);
    let program = parser.parse_program();

    assert_eq!(parser.errors.len(), 0);
    assert_eq!(program.statements.len(), 0);
    assert_eq!(program.to_string(), "");
}

#[test]
fn largest_integer_literal_parses() {
    let lexer = Lexer::new("9223372036854775807;");
    let mut parser = Parser::new(lexer);
    let program = parser.parse_program();

    assert_eq!(parser.errors.len(), 0);
    assert_eq!(program.to_string(), "9223372036854775807");
}

#[test]
fn oversized_integer_literal_is_a_type_error() {
    let lexer = Lexer::new("9223372036854775808;");
    let mut parser = Parser::new(lexer);
    let program = parser.parse_program();

    assert_eq!(program.statements.len(), 0);
    assert_eq!(parser.errors.len(), 1);
    assert_eq!(
        parser.errors[0].message(),
        "could not parse 9223372036854775808 as integer"
    );
}

#[test]
fn leading_zeros_parse_to_the_value() {
    let lexer = Lexer::new("007;");
    let mut parser = Parser::new(lexer);
    let program = parser.parse_program();

    assert_eq!(parser.errors.len(), 0);
    // rendering uses the parsed value, not the literal text
    assert_eq!(program.to_string(), "7");
}

#[test]
fn illegal_character_has_no_prefix_rule() {
    let lexer = Lexer::new("@;");
    let mut parser = Parser::new(lexer);
    let program = parser.parse_program();

    assert_eq!(program.statements.len(), 0);
    assert_eq!(parser.errors.len(), 1);
    assert_eq!(
        parser.errors[0].message(),
        "no prefix parse function for ILLEGAL found"
    );
}

#[test]
fn semicolon_is_optional_after_the_last_expression() {
    let lexer = Lexer::new("a + b");
    let mut parser = Parser::new(lexer);
    let program = parser.parse_program();

    assert_eq!(parser.errors.len(), 0);
    assert_eq!(program.to_string(), "(a + b)");
}

#[test]
fn one_malformed_statement_does_not_stop_the_parse() {
    let lexer = Lexer::new("let = 1; foo; return 2;");
    let mut parser = Parser::new(lexer);
    let program = parser.parse_program();

    assert!(parser.errors.len() > 0);
    // the well-formed statements after the malformed one still parse
    assert!(program
        .statements
        .iter()
        .any(|s| matches!(s.as_ref(), Statement::Return(_))));
    assert!(program.to_string().contains("foo"));
    assert!(program.to_string().contains("return ;"));
}

#[test]
fn let_without_semicolon_stops_at_end_of_input() {
    let lexer = Lexer::new("let x = 5");
    let mut parser = Parser::new(lexer);
    let program = parser.parse_program();

    assert_eq!(parser.errors.len(), 0);
    assert_eq!(program.to_string(), "let x = ;");
}

#[test]
fn underscore_starts_an_identifier() {
    let lexer = Lexer::new("_private;");
    let mut parser = Parser::new(lexer);
    let program = parser.parse_program();

    assert_eq!(parser.errors.len(), 0);
    assert_eq!(program.to_string(), "_private");
}

#[test]
fn non_ascii_identifier_parses_and_renders() {
    let lexer = Lexer::new("αβγ;");
    let mut parser = Parser::new(lexer);
    let program = parser.parse_program();

    assert_eq!(parser.errors.len(), 0);
    assert_eq!(program.to_string(), "αβγ");
}

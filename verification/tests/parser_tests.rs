use rinterpreter::ast::{Expression, IntegerLiteral, InfixExpression, Statement};
use rinterpreter::lexer::Lexer;
use rinterpreter::parser::Parser;
use rinterpreter::token::{Token, TokenType};

fn check_parser_errors(parser: &Parser) {
    if parser.errors.is_empty() {
        return;
    }

    println!("Parser has {} errors", parser.errors.len());
    parser
        .errors
        .iter()
        .for_each(|err| println!("parser error: {}", err.message()));
}

#[test]
fn test_let_statements() {
    let input = r#"
let x = 5;
let y = 10;
let foobar = 838383;
"#;
    let lexer = Lexer::new(input);
    let mut parser = Parser::new(lexer);
    let program = parser.parse_program();

    assert_eq!(3, program.statements.len());
    assert_eq!(program.to_string(), "let x = ;let y = ;let foobar = ;");
}

#[test]
fn test_invalid_statements() {
    let input = r#"
let x 5;
let = 10;
let 838383;
"#;
    let lexer = Lexer::new(input);
    let mut parser = Parser::new(lexer);
    parser.parse_program();
    check_parser_errors(&parser);

    assert_eq!(parser.errors.len(), 4);
}

#[test]
fn test_return_statements() {
    let input = r#"
return 5;
return 10;
return 993322;
            "#;
    let lexer = Lexer::new(input);
    let mut parser = Parser::new(lexer);
    let program = parser.parse_program();
    check_parser_errors(&parser);

    assert_eq!(3, program.statements.len());
    for s in program.statements {
        assert_eq!("return ;".to_owned(), s.to_string());
    }
}

#[test]
fn test_identifier_expression() {
    let input = r#"foobar;"#;
    let lexer = Lexer::new(input);
    let mut parser = Parser::new(lexer);
    let program = parser.parse_program();
    check_parser_errors(&parser);

    assert_eq!(1, program.statements.len());

    for s in program.statements {
        assert_eq!(s.to_string(), "foobar");
    }
}

#[test]
fn test_integer_literal_expression() {
    let input = r#"5;"#;
    let lexer = Lexer::new(input);
    let mut parser = Parser::new(lexer);
    let program = parser.parse_program();
    check_parser_errors(&parser);

    for s in program.statements {
        assert_eq!(s.to_string(), "5");
    }
}

#[test]
fn test_prefix_expression() {
    let input = r#"!5;"#;
    let lexer = Lexer::new(input);
    let mut parser = Parser::new(lexer);
    let program = parser.parse_program();
    check_parser_errors(&parser);

    assert_eq!(1, program.statements.len());

    for s in program.statements {
        assert_eq!(s.to_string(), "(!5)");
    }
}

#[test]
fn test_infix_expression() {
    let tests = vec![
        ("5 + 5;", 5, "+", 5),
        ("5 - 5;", 5, "-", 5),
        ("5 * 5;", 5, "*", 5),
        ("5 / 5;", 5, "/", 5),
        ("5 > 5;", 5, ">", 5),
        ("5 < 5;", 5, "<", 5),
        ("5 == 5;", 5, "==", 5),
        ("5 != 5;", 5, "!=", 5),
    ];

    for (input, left, operator, right) in tests {
        let lexer = Lexer::new(input);
        let mut parser = Parser::new(lexer);
        let operator = operator.to_owned();

        let program = parser.parse_program();
        check_parser_errors(&parser);

        assert_eq!(parser.errors.len(), 0);
        assert_eq!(
            program.statements,
            vec![Box::new(Statement::Expression(Expression::Infix(
                InfixExpression {
                    token: Token::new(
                        operator.parse::<TokenType>().unwrap(),
                        operator.to_owned()
                    ),
                    left: Box::new(Expression::Integer(IntegerLiteral {
                        token: Token::new(TokenType::INTEGER, left.to_string()),
                        value: left,
                    })),
                    operator,
                    right: Box::new(Expression::Integer(IntegerLiteral {
                        token: Token::new(TokenType::INTEGER, right.to_string()),
                        value: right,
                    }))
                }
            )))]
        );
    }
}

#[test]
fn test_operator_precedence_parsing() {
    let tests = [
        ("-a * b", "((-a) * b)"),
        ("!-a", "(!(-a))"),
        ("a + b + c", "((a + b) + c)"),
        ("a + b - c", "((a + b) - c)"),
        ("a * b * c", "((a * b) * c)"),
        ("a * b / c", "((a * b) / c)"),
        ("a + b / c", "(a + (b / c))"),
        ("a + b * c + d / e - f", "(((a + (b * c)) + (d / e)) - f)"),
        ("3 + 4; -5 * 5", "(3 + 4)((-5) * 5)"),
        ("5 > 4 == 3 < 4", "((5 > 4) == (3 < 4))"),
        ("5 < 4 != 3 > 4", "((5 < 4) != (3 > 4))"),
        (
            "3 + 4 * 5 == 3 * 1 + 4 * 5",
            "((3 + (4 * 5)) == ((3 * 1) + (4 * 5)))",
        ),
    ];

    for (input, expected) in tests.iter() {
        let l = Lexer::new(input);
        let mut parser = Parser::new(l);
        let program = parser.parse_program();
        check_parser_errors(&parser);

        assert_eq!(parser.errors.len(), 0);
        assert_eq!(program.to_string(), *expected);
    }
}

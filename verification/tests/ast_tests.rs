use rinterpreter::ast::{
    BooleanExpression, Expression, Identifier, InfixExpression, IntegerLiteral, LetStatement,
    Node, PrefixExpression, Program, ReturnStatement, Statement,
};
use rinterpreter::token::{Token, TokenType};

#[test]
fn test_string() {
    let token = Token::new(TokenType::LET, "let".to_owned());
    let identifier = Identifier {
        token: Token::new(TokenType::IDENT, "myVar".to_owned()),
        value: "myVar".to_owned(),
    };
    let _value = Box::new(Identifier {
        token: Token::new(TokenType::IDENT, "anotherVar".to_owned()),
        value: "anotherVar".to_owned(),
    });
    let let_statement = Statement::Let(LetStatement {
        token,
        name: identifier,
    });

    let program = Program {
        statements: vec![Box::new(let_statement)],
    };
    assert_eq!(program.to_string(), "let myVar = ;");

    let integer_literal = IntegerLiteral {
        token: Token::new(TokenType::INTEGER, "5".to_owned()),
        value: 5,
    };
    assert_eq!(integer_literal.to_string(), "5");

    let pe = PrefixExpression {
        token: Token::new(TokenType::INTEGER, "5".to_owned()),
        operator: String::from("+"),
        right: Box::new(Expression::Integer(IntegerLiteral {
            token: Token::new(TokenType::INTEGER, "5".to_owned()),
            value: 5,
        })),
    };
    assert_eq!(pe.to_string(), "(+5)");
}

#[test]
fn render_return_statement() {
    let statement = Statement::Return(ReturnStatement {
        token: Token::new(TokenType::RETURN, "return".to_owned()),
    });
    assert_eq!(statement.to_string(), "return ;");
}

#[test]
fn render_boolean_literals() {
    let yes = BooleanExpression {
        token: Token::new(TokenType::TRUE, "true".to_owned()),
        value: true,
    };
    let no = BooleanExpression {
        token: Token::new(TokenType::FALSE, "false".to_owned()),
        value: false,
    };
    assert_eq!(yes.to_string(), "true");
    assert_eq!(no.to_string(), "false");
}

#[test]
fn render_negative_and_extreme_integers() {
    let minus_seven = IntegerLiteral {
        token: Token::new(TokenType::INTEGER, "7".to_owned()),
        value: -7,
    };
    assert_eq!(minus_seven.to_string(), "-7");
    let zero = IntegerLiteral {
        token: Token::new(TokenType::INTEGER, "0".to_owned()),
        value: 0,
    };
    assert_eq!(zero.to_string(), "0");
    let max = IntegerLiteral {
        token: Token::new(TokenType::INTEGER, "9223372036854775807".to_owned()),
        value: i64::MAX,
    };
    assert_eq!(max.to_string(), "9223372036854775807");
    let min = IntegerLiteral {
        token: Token::new(TokenType::INTEGER, "9223372036854775808".to_owned()),
        value: i64::MIN,
    };
    assert_eq!(min.to_string(), "-9223372036854775808");
}

#[test]
fn render_infix_expression_node() {
    let node = InfixExpression {
        token: Token::new(TokenType::PLUS, "+".to_owned()),
        left: Box::new(Expression::Identifier(Identifier {
            token: Token::new(TokenType::IDENT, "a".to_owned()),
            value: "a".to_owned(),
        })),
        operator: "+".to_owned(),
        right: Box::new(Expression::Identifier(Identifier {
            token: Token::new(TokenType::IDENT, "b".to_owned()),
            value: "b".to_owned(),
        })),
    };
    assert_eq!(node.to_string(), "(a + b)");
}

#[test]
fn render_node_wrappers() {
    let statement = Statement::Return(ReturnStatement {
        token: Token::new(TokenType::RETURN, "return".to_owned()),
    });
    assert_eq!(Node::Statement(statement).to_string(), "return ;");
    let program = Program { statements: vec![] };
    assert_eq!(Node::Program(program).to_string(), "");
}

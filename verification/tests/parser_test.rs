use ts_interpreter_rs::interpreter::{Interpreter, Value};
use ts_interpreter_rs::lexer::Token;
use ts_interpreter_rs::number::Q;
use ts_interpreter_rs::parser::{Expression, ParseError, Parser, Statement};

#[test]
fn test_parse_number() {
    let input = "42";
    let mut parser = Parser::new(input);
    let expr = parser.parse_expression().unwrap();
    assert_eq!(expr, Expression::Number(Q::from_int(42)));
}

#[test]
fn test_parse_identifier() {
    let input = "x";
    let mut parser = Parser::new(input);
    let expr = parser.parse_expression().unwrap();
    assert_eq!(expr, Expression::Identifier("x".to_string()));
}

#[test]
fn test_parse_let_statement() {
    let input = "let x = 42;";
    let mut parser = Parser::new(input);
    let stmt = parser.parse_statement().unwrap();
    assert_eq!(
        stmt,
        Statement::Let {
            name: "x".to_string(),
            value: Expression::Number(Q::from_int(42)),
        }
    );
}

#[test]
fn test_parse_binary_expression() {
    let input = "5 + 3";
    let mut parser = Parser::new(input);
    let expr = parser.parse_expression().unwrap();
    assert_eq!(
        expr,
        Expression::Binary {
            left: Box::new(Expression::Number(Q::from_int(5))),
            operator: Token::Plus,
            right: Box::new(Expression::Number(Q::from_int(3))),
        }
    );
}

#[test]
fn test_complex_arithmetic() {
    let cases = vec![
        ("(5 + 3) * 2", 16),  // Parentheses
        ("2 * 3 + 4", 10),    // Multiplication before addition
        ("2 + 3 * 4", 14),    // Multiplication before addition
        ("10 / 2 * 3", 15),   // Left-to-right for same precedence
    ];

    for (input, expected) in cases {
        let mut parser = Parser::new(input);
        let expr = parser.parse_expression().unwrap();
        let mut interpreter = Interpreter::new();
        let result = interpreter.eval(Statement::Expression(expr)).unwrap();
        assert_eq!(result, Value::Number(Q::from_int(expected)));
    }
}

#[test]
fn test_precedence_tree_shape() {
    // "2 + 3 * 4" must attach the multiplication below the addition.
    let mut parser = Parser::new("2 + 3 * 4");
    let expr = parser.parse_expression().unwrap();
    assert_eq!(
        expr,
        Expression::Binary {
            left: Box::new(Expression::Number(Q::from_int(2))),
            operator: Token::Plus,
            right: Box::new(Expression::Binary {
                left: Box::new(Expression::Number(Q::from_int(3))),
                operator: Token::Star,
                right: Box::new(Expression::Number(Q::from_int(4))),
            }),
        }
    );
}

#[test]
fn test_left_associativity_tree_shape() {
    // "10 / 2 * 3" must group as "(10 / 2) * 3".
    let mut parser = Parser::new("10 / 2 * 3");
    let expr = parser.parse_expression().unwrap();
    assert_eq!(
        expr,
        Expression::Binary {
            left: Box::new(Expression::Binary {
                left: Box::new(Expression::Number(Q::from_int(10))),
                operator: Token::Slash,
                right: Box::new(Expression::Number(Q::from_int(2))),
            }),
            operator: Token::Star,
            right: Box::new(Expression::Number(Q::from_int(3))),
        }
    );
}

#[test]
fn test_missing_identifier_after_let() {
    let mut parser = Parser::new("let 5 = 3;");
    assert_eq!(parser.parse_statement(), Err(ParseError::ExpectedIdentifier));
}

#[test]
fn test_missing_equals_in_let() {
    let mut parser = Parser::new("let x 5;");
    assert_eq!(parser.parse_statement(), Err(ParseError::ExpectedEquals));
}

#[test]
fn test_missing_close_paren() {
    let mut parser = Parser::new("(5 + 3");
    assert_eq!(parser.parse_expression(), Err(ParseError::ExpectedCloseParen));
}

#[test]
fn test_unexpected_token_in_expression() {
    let mut parser = Parser::new(")");
    assert_eq!(
        parser.parse_expression(),
        Err(ParseError::ExpectedExpression(Token::RParen))
    );
}

#[test]
fn test_let_without_semicolon() {
    let mut parser = Parser::new("let x = 42");
    let stmt = parser.parse_statement().unwrap();
    assert_eq!(
        stmt,
        Statement::Let {
            name: "x".to_string(),
            value: Expression::Number(Q::from_int(42)),
        }
    );
    assert!(parser.is_eof());
}

use ts_interpreter_rs::interpreter::{EvalError, Interpreter, Value};
use ts_interpreter_rs::Error;
use ts_interpreter_rs::number::Q;
use ts_interpreter_rs::parser::{Parser, Statement};

fn run(input: &str) -> (Interpreter, Result<Value, EvalError>) {
    let mut interpreter = Interpreter::new();
    let mut parser = Parser::new(input);
    let mut last = Err(EvalError::InvalidOperation);
    while !parser.is_eof() {
        let stmt = parser.parse_statement().unwrap();
        last = interpreter.eval(stmt);
        if last.is_err() {
            break;
        }
    }
    (interpreter, last)
}

#[test]
fn test_evaluate_complex_arithmetic() {
    let cases = vec![
        ("(5 + 3) * 2", Value::Number(Q::from_int(16))),
        ("2 * 3 + 4", Value::Number(Q::from_int(10))),
        ("2 + 3 * 4", Value::Number(Q::from_int(14))),
    ];

    let mut interpreter = Interpreter::new();
    for (input, expected) in cases {
        let mut parser = Parser::new(input);
        let expr = parser.parse_expression().unwrap();
        let result = interpreter.eval(Statement::Expression(expr)).unwrap();
        assert_eq!(result, expected);
    }
}

#[test]
fn test_evaluate_variables() {
    let mut interpreter = Interpreter::new();
    let mut parser = Parser::new("let x = 42; let y = x + 8;");

    while !parser.is_eof() {
        let stmt = parser.parse_statement().unwrap();
        interpreter.eval(stmt).unwrap();
    }

    assert_eq!(
        interpreter.get_last_value(),
        Some(&Value::Number(Q::from_int(50)))
    );
}

#[test]
fn test_string_operations() {
    let mut interpreter = Interpreter::new();
    let mut parser = Parser::new(
        r#"let greeting = "Hello, "; let name = "World"; let message = greeting + name;"#,
    );

    while !parser.is_eof() {
        let stmt = parser.parse_statement().unwrap();
        interpreter.eval(stmt).unwrap();
    }

    assert_eq!(
        interpreter.get_last_value(),
        Some(&Value::String("Hello, World".to_string()))
    );
}

#[test]
fn test_environment_accumulates() {
    let (interpreter, _) = run("let x = 42; let y = x + 8;");
    let vars = interpreter.get_variables();
    assert_eq!(vars.get(&"x".to_string()), Some(&Value::Number(Q::from_int(42))));
    assert_eq!(vars.get(&"y".to_string()), Some(&Value::Number(Q::from_int(50))));
    assert_eq!(vars.get(&"z".to_string()), None);
}

#[test]
fn test_let_rebinding_overwrites() {
    let (interpreter, _) = run("let x = 1; let x = 2;");
    assert_eq!(
        interpreter.get_variables().get(&"x".to_string()),
        Some(&Value::Number(Q::from_int(2)))
    );
}

#[test]
fn test_undefined_variable_error() {
    let (_, result) = run("missing + 1");
    assert_eq!(result, Err(EvalError::UndefinedVariable("missing".to_string())));
}

#[test]
fn test_string_minus_string_is_invalid() {
    let (_, result) = run(r#""a" - "b""#);
    assert_eq!(result, Err(EvalError::InvalidOperation));
}

#[test]
fn test_number_plus_string_is_invalid() {
    let (_, result) = run(r#"1 + "b""#);
    assert_eq!(result, Err(EvalError::InvalidOperation));
}

#[test]
fn test_division_by_zero_error() {
    let (_, result) = run("1 / 0");
    assert_eq!(result, Err(EvalError::DivisionByZero));
}

#[test]
fn test_overflow_error() {
    let (_, result) = run("9223372036854775807 * 2");
    assert_eq!(result, Err(EvalError::Overflow));
}

#[test]
fn test_exact_decimal_arithmetic() {
    let (_, result) = run("0.1 + 0.2");
    assert_eq!(result.unwrap(), Value::Number(Q { num: 3, den: 10 }));
}

#[test]
fn test_division_yields_fraction() {
    let (_, result) = run("10 / 4");
    assert_eq!(result.unwrap(), Value::Number(Q { num: 5, den: 2 }));
}

#[test]
fn test_failed_statement_leaves_state_unchanged() {
    let (interpreter, result) = run("let x = 1; let y = nope;");
    assert!(result.is_err());
    assert_eq!(
        interpreter.get_variables().get(&"x".to_string()),
        Some(&Value::Number(Q::from_int(1)))
    );
    assert_eq!(interpreter.get_variables().get(&"y".to_string()), None);
    assert_eq!(interpreter.get_last_value(), Some(&Value::Number(Q::from_int(1))));
}

#[test]
fn test_literal_round_trip() {
    // Evaluating a literal, writing it back as source, and evaluating again
    // gives a structurally equal value.
    let (_, first) = run("42");
    let first = first.unwrap();
    let rendered = match &first {
        Value::Number(q) => {
            assert_eq!(q.den, 1);
            format!("{}", q.num)
        }
        Value::String(s) => format!("\"{}\"", s),
        _ => unreachable!(),
    };
    let (_, second) = run(&rendered);
    assert_eq!(second.unwrap(), first);

    let (_, s1) = run(r#""hello""#);
    let s1 = s1.unwrap();
    let rendered = match &s1 {
        Value::String(s) => format!("\"{}\"", s),
        _ => unreachable!(),
    };
    let (_, s2) = run(&rendered);
    assert_eq!(s2.unwrap(), s1);
}

#[test]
fn test_error_messages() {
    let e = EvalError::UndefinedVariable("x".to_string());
    assert_eq!(e.message(), "Undefined variable: x".to_string());
    match Error::from_eval(&e) {
        Error::Runtime(m) => assert_eq!(m, "Undefined variable: x".to_string()),
        _ => panic!("expected a runtime error"),
    }
    match Error::from_eval(&EvalError::InvalidOperation) {
        Error::Type(m) => assert_eq!(m, "Invalid operation".to_string()),
        _ => panic!("expected a type error"),
    }
    let mut parser = Parser::new("let 5 = 3;");
    let pe = parser.parse_statement().unwrap_err();
    match Error::from_parse(&pe) {
        Error::Syntax(m) => assert_eq!(m, "Expected identifier after 'let'".to_string()),
        _ => panic!("expected a syntax error"),
    }
}

use ts_interpreter_rs::lexer::{Lexer, Token};
use ts_interpreter_rs::number::Q;

#[test]
fn test_new_lexer() {
    let input = "let x = 42;";
    let lexer = Lexer::new(input);
    assert_eq!(lexer.input.len(), input.chars().count());
    assert_eq!(lexer.position, 0);
}

#[test]
fn test_skip_whitespace() {
    let mut lexer = Lexer::new("   \t\n  abc");
    lexer.skip_whitespace();
    assert_eq!(lexer.position, 7);
}

#[test]
fn test_eof_on_empty_input() {
    let mut lexer = Lexer::new("");
    assert_eq!(lexer.next_token(), Token::EOF);
}

#[test]
fn test_basic_lexing() {
    let input = "let x = 42;";
    let mut lexer = Lexer::new(input);

    assert_eq!(lexer.next_token(), Token::Let);
    assert_eq!(lexer.next_token(), Token::Identifier("x".to_string()));
    assert_eq!(lexer.next_token(), Token::Equal);
    assert_eq!(lexer.next_token(), Token::Number(Q::from_int(42)));
    assert_eq!(lexer.next_token(), Token::Semicolon);
    assert_eq!(lexer.next_token(), Token::EOF);
}

#[test]
fn test_complex_expression() {
    let input = "function add(a<T>, b) { return a + b; }";
    let mut lexer = Lexer::new(input);

    let expected_tokens = vec![
        Token::Function,
        Token::Identifier("add".to_string()),
        Token::LParen,
        Token::Identifier("a".to_string()),
        Token::LAngle,
        Token::Identifier("T".to_string()),
        Token::RAngle,
        Token::Comma,
        Token::Identifier("b".to_string()),
        Token::RParen,
        Token::LBrace,
        Token::Return,
        Token::Identifier("a".to_string()),
        Token::Plus,
        Token::Identifier("b".to_string()),
        Token::Semicolon,
        Token::RBrace,
        Token::EOF,
    ];

    for expected in expected_tokens {
        assert_eq!(lexer.next_token(), expected);
    }
}

#[test]
fn test_float_numbers() {
    let input = "let pi = 3.14159;";
    let mut lexer = Lexer::new(input);

    assert_eq!(lexer.next_token(), Token::Let);
    assert_eq!(lexer.next_token(), Token::Identifier("pi".to_string()));
    assert_eq!(lexer.next_token(), Token::Equal);
    assert_eq!(lexer.next_token(), Token::Number(Q { num: 314159, den: 100000 }));
    assert_eq!(lexer.next_token(), Token::Semicolon);
    assert_eq!(lexer.next_token(), Token::EOF);
}

#[test]
fn test_skip_comments() {
    let input = "// this is a comment\nlet x = 42;";
    let mut lexer = Lexer::new(input);

    assert_eq!(lexer.next_token(), Token::Let);
    assert_eq!(lexer.next_token(), Token::Identifier("x".to_string()));
    assert_eq!(lexer.next_token(), Token::Equal);
    assert_eq!(lexer.next_token(), Token::Number(Q::from_int(42)));
    assert_eq!(lexer.next_token(), Token::Semicolon);
    assert_eq!(lexer.next_token(), Token::EOF);
}

#[test]
fn test_comment_tokens_match_plain_tokens() {
    let mut with_comment = Lexer::new("// comment\nlet x = 42;");
    let mut plain = Lexer::new("let x = 42;");
    for _ in 0..6 {
        assert_eq!(with_comment.next_token(), plain.next_token());
    }
}

#[test]
fn test_trailing_dot_number() {
    let mut lexer = Lexer::new("42.");
    assert_eq!(lexer.next_token(), Token::Number(Q::from_int(42)));
    assert_eq!(lexer.next_token(), Token::EOF);
}

#[test]
fn test_unterminated_string_read_to_end() {
    let mut lexer = Lexer::new("\"abc");
    assert_eq!(lexer.next_token(), Token::String("abc".to_string()));
    assert_eq!(lexer.next_token(), Token::EOF);
}

#[test]
fn test_unknown_character_collapses_to_eof() {
    let mut lexer = Lexer::new("@ let");
    assert_eq!(lexer.next_token(), Token::EOF);
    assert_eq!(lexer.next_token(), Token::EOF);
}

#[test]
fn test_huge_number_collapses_to_eof() {
    // Twenty nines exceed the mantissa range.
    let mut lexer = Lexer::new("99999999999999999999");
    assert_eq!(lexer.next_token(), Token::EOF);
    assert_eq!(lexer.next_token(), Token::EOF);
}

#[test]
fn test_string_literal_token() {
    let mut lexer = Lexer::new("\"Hello, World\"");
    assert_eq!(lexer.next_token(), Token::String("Hello, World".to_string()));
    assert_eq!(lexer.next_token(), Token::EOF);
}

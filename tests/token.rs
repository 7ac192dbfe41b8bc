use monkey_interpreter_rust::token::{Token, TokenType};

#[test]
fn lib_test_next_token() {
    let token = Token::Comma;
    assert_eq!(Token::Comma, token);
}

#[test]
fn token_new_keeps_text_of_identifiers_and_integers_only() {
    assert_eq!(
        Token::new(TokenType::Ident, String::from("x")),
        Token::Ident(String::from("x"))
    );
    assert_eq!(
        Token::new(TokenType::Int, String::from("12")),
        Token::Int(String::from("12"))
    );
    assert_eq!(Token::new(TokenType::Let, String::from("let")), Token::Let);
    assert_eq!(Token::Ident(String::from("y")).kind(), TokenType::Ident);
    assert_eq!(Token::NotEq.kind(), TokenType::NotEq);
}

#[test]
fn lookup_ident_finds_keywords() {
    let cases: Vec<(&str, TokenType)> = vec![
        ("fn", TokenType::Function),
        ("let", TokenType::Let),
        ("true", TokenType::True),
        ("false", TokenType::False),
        ("if", TokenType::If),
        ("else", TokenType::Else),
        ("return", TokenType::Return),
        ("lets", TokenType::Ident),
        ("f", TokenType::Ident),
        ("Return", TokenType::Ident),
    ];
    for (word, kind) in cases {
        let bytes = word.as_bytes();
        assert_eq!(
            monkey_interpreter_rust::token::lookup_ident(bytes, 0, bytes.len()),
            kind,
            "{}",
            word
        );
    }
}

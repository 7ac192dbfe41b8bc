use monkey_interpreter_rust::lexer::Lexer;
use monkey_interpreter_rust::token::Token;

fn ident(s: &str) -> Token {
    Token::Ident(String::from(s))
}

fn integer(s: &str) -> Token {
    Token::Int(String::from(s))
}

fn scan_all(input: &str) -> Vec<Token> {
    let mut l = Lexer::new(input);
    let mut tokens = Vec::new();
    loop {
        let t = l.next_token();
        let end = t == Token::Eof;
        tokens.push(t);
        if end {
            return tokens;
        }
    }
}

#[test]
fn lexer_test_next_token() {
    let input = String::from(
        "let five = 5;
    let ten = 10;

    let add = fn(x, y) {
        x + y;
    };

    let result = add(five, ten);
    !-/*5;
    5 < 10 > 5;

    if (5 < 10) {
        return true;
    } else {
        return false;
    }

    10 == 10;
    10 != 9;
    ",
    );
    let mut l = Lexer::new(&input);
    let tests = vec![
        Token::Let,
        ident("five"),
        Token::Assign,
        integer("5"),
        Token::Semicolon,
        //
        Token::Let,
        ident("ten"),
        Token::Assign,
        integer("10"),
        Token::Semicolon,
        //
        Token::Let,
        ident("add"),
        Token::Assign,
        Token::Function,
        Token::LParen,
        ident("x"),
        Token::Comma,
        ident("y"),
        Token::RParen,
        Token::LBrace,
        ident("x"),
        Token::Plus,
        ident("y"),
        Token::Semicolon,
        Token::RBrace,
        Token::Semicolon,
        // let result = add(five, ten);
        Token::Let,
        ident("result"),
        Token::Assign,
        ident("add"),
        Token::LParen,
        ident("five"),
        Token::Comma,
        ident("ten"),
        Token::RParen,
        Token::Semicolon,
        // !-/*5;
        Token::Bang,
        Token::Minus,
        Token::Slash,
        Token::Asterisk,
        integer("5"),
        Token::Semicolon,
        // 5 < 10 > 5;
        integer("5"),
        Token::Lt,
        integer("10"),
        Token::Gt,
        integer("5"),
        Token::Semicolon,
        // if (5 < 10) {
        Token::If,
        Token::LParen,
        integer("5"),
        Token::Lt,
        integer("10"),
        Token::RParen,
        Token::LBrace,
        //     return true;
        Token::Return,
        Token::True,
        Token::Semicolon,
        // } else {
        Token::RBrace,
        Token::Else,
        Token::LBrace,
        //     return false;
        Token::Return,
        Token::False,
        Token::Semicolon,
        // }
        Token::RBrace,
        // 10 == 10;
        integer("10"),
        Token::Eq,
        integer("10"),
        Token::Semicolon,
        // 10 != 9;
        integer("10"),
        Token::NotEq,
        integer("9"),
        Token::Semicolon,
        Token::Eof,
    ];

    for expected in tests {
        let token = l.next_token();
        assert_eq!(expected, token);
    }
}

#[test]
fn token_stream_ends_in_eof_and_stays_there() {
    let mut l = Lexer::new("let x = 5;");
    let mut calls = 0;
    while l.next_token() != Token::Eof {
        calls += 1;
        assert!(calls <= 10);
    }
    assert_eq!(calls, 5);
    for _ in 0..5 {
        assert_eq!(l.next_token(), Token::Eof);
    }
}

#[test]
fn empty_and_blank_sources_scan_to_eof() {
    assert_eq!(scan_all(""), vec![Token::Eof]);
    assert_eq!(scan_all(" \t\n\n  "), vec![Token::Eof]);
}

#[test]
fn delimiters_and_operators_scan_one_byte_each() {
    assert_eq!(
        scan_all("=+(){},;"),
        vec![
            Token::Assign,
            Token::Plus,
            Token::LParen,
            Token::RParen,
            Token::LBrace,
            Token::RBrace,
            Token::Comma,
            Token::Semicolon,
            Token::Eof,
        ]
    );
}

#[test]
fn two_byte_operators_are_single_tokens() {
    assert_eq!(
        scan_all("10 == 10; 10 != 9;"),
        vec![
            integer("10"),
            Token::Eq,
            integer("10"),
            Token::Semicolon,
            integer("10"),
            Token::NotEq,
            integer("9"),
            Token::Semicolon,
            Token::Eof,
        ]
    );
}

#[test]
fn one_byte_lookahead_without_backtracking() {
    assert_eq!(
        scan_all("=== !!= =! ="),
        vec![
            Token::Eq,
            Token::Assign,
            Token::Bang,
            Token::NotEq,
            Token::Assign,
            Token::Bang,
            Token::Assign,
            Token::Eof,
        ]
    );
    assert_eq!(scan_all("!"), vec![Token::Bang, Token::Eof]);
}

#[test]
fn identifiers_take_letters_and_underscores() {
    assert_eq!(
        scan_all("foo_bar _x Abc letx let1"),
        vec![
            ident("foo_bar"),
            ident("_x"),
            ident("Abc"),
            ident("letx"),
            Token::Let,
            integer("1"),
            Token::Eof,
        ]
    );
}

#[test]
fn digits_then_letters_split() {
    assert_eq!(
        scan_all("123abc 007"),
        vec![integer("123"), ident("abc"), integer("007"), Token::Eof]
    );
}

#[test]
fn unknown_bytes_are_illegal() {
    assert_eq!(
        scan_all("a@b\r"),
        vec![ident("a"), Token::Illegal, ident("b"), Token::Illegal, Token::Eof]
    );
    // Each byte of a multi-byte character is a token of its own.
    assert_eq!(
        scan_all("\u{e9}x"),
        vec![Token::Illegal, Token::Illegal, ident("x"), Token::Eof]
    );
    // A NUL byte inside the text does not end the token stream.
    assert_eq!(
        scan_all("a\0b"),
        vec![ident("a"), Token::Illegal, ident("b"), Token::Eof]
    );
}

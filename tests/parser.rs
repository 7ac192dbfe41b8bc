use monkey_interpreter_rust::ast::{Expression, Precedence, Program, Statement};
use monkey_interpreter_rust::lexer::Lexer;
use monkey_interpreter_rust::parser::{parse_decimal, ParseError, Parser};
use monkey_interpreter_rust::token::TokenType;

fn check_parse_errors(p: &Parser) {
    if p.errors().len() == 0 {
        return;
    }

    println!("parser has {} errors", p.errors().len());
    for error in p.errors() {
        println!("parser error: {:?}", error);
    }
    panic!("test failed");
}

fn parse(input: &str) -> (Program, Vec<ParseError>) {
    let lexer = Lexer::new(input);
    let mut parser = Parser::new(lexer);
    let program = parser.parse_program();
    (program, parser.errors().clone())
}

#[test]
fn test_identifier_expression() {
    let input = "foobar";

    let lexer = Lexer::new(&input);
    let mut parser = Parser::new(lexer);

    let program = parser.parse_program();
    check_parse_errors(&parser);

    if program.statements.len() != 1 {
        panic!(
            "program has not enough statements. got {}",
            program.statements.len()
        );
    }

    let statement = &program.statements[0];

    let expression = match statement {
        Statement::Expression(expression) => expression,
        _ => {
            panic!("program.statements[0] is not expression. got {:?}", statement);
        }
    };

    let value = match expression {
        Expression::Identifier(value) => value,
        _ => panic!("expression is not Identifier. got {:?}", expression),
    };
    assert_eq!("foobar", value);
}

#[test]
fn test_integer_literal_expression() {
    let input = "5;";

    let lexer = Lexer::new(&input);
    let mut parser = Parser::new(lexer);

    let program = parser.parse_program();
    check_parse_errors(&parser);

    if program.statements.len() != 1 {
        panic!(
            "program has not enough statements. got {}",
            program.statements.len()
        );
    }

    let statement = &program.statements[0];

    let expression = match statement {
        Statement::Expression(expression) => expression,
        _ => {
            panic!("program.statements[0] is not expression. got {:?}", statement);
        }
    };

    let value = match expression {
        Expression::IntegerLiteral(value) => *value,
        _ => panic!("expression is not Identifier. got {:?}", expression),
    };
    assert_eq!(5, value);
}

#[test]
fn test_let_statements() {
    let input = "
    let x = 5;
    let y = 10;
    let foobar = 838383;
    ";

    let lexer = Lexer::new(&input);
    let mut parser = Parser::new(lexer);

    let program = parser.parse_program();
    check_parse_errors(&parser);

    if program.statements.len() != 3 {
        panic!(
            "program.statements does not contain 3 statements. got={}",
            program.statements.len()
        );
    }

    let expected = vec![
        Statement::Let {
            name: Expression::Identifier(String::from("x")),
        },
        Statement::Let {
            name: Expression::Identifier(String::from("y")),
        },
        Statement::Let {
            name: Expression::Identifier(String::from("foobar")),
        },
    ];
    assert_eq!(expected, program.statements);
}

#[test]
#[should_panic]
fn test_let_statements_errors() {
    let input = "
    let x 5;
    let = 10;
    let 838383;
    ";

    let lexer = Lexer::new(&input);
    let mut parser = Parser::new(lexer);

    parser.parse_program();
    check_parse_errors(&parser);
}

#[test]
fn test_return_statements() {
    let input = "
    return 5;
    return 10;
    return 838383;
    ";

    let lexer = Lexer::new(&input);
    let mut parser = Parser::new(lexer);

    let program = parser.parse_program();
    check_parse_errors(&parser);

    if program.statements.len() != 3 {
        panic!(
            "program.statements does not contain 3 statements. got={}",
            program.statements.len()
        );
    }

    let expected = vec![Statement::Return, Statement::Return, Statement::Return];
    assert_eq!(expected, program.statements);
}

#[test]
fn let_statements_without_leading_blank_lines() {
    let (program, errors) = parse("let x = 5;\nlet y = 10;\nlet foobar = 838383;\n");
    assert!(errors.is_empty());
    let names: Vec<Statement> = ["x", "y", "foobar"]
        .iter()
        .map(|n| Statement::Let {
            name: Expression::Identifier(String::from(*n)),
        })
        .collect();
    assert_eq!(program.statements, names);
}

#[test]
fn return_statements_without_leading_blank_lines() {
    let (program, errors) = parse("return 5;\nreturn 10;\nreturn 838383;\n");
    assert!(errors.is_empty());
    assert_eq!(
        program.statements,
        vec![Statement::Return, Statement::Return, Statement::Return]
    );
}

#[test]
fn malformed_lets_record_one_error_each_and_parsing_goes_on() {
    let (program, errors) = parse("let x 5;\nlet = 10;\nlet 838383;\n");
    assert_eq!(
        errors,
        vec![
            ParseError::UnexpectedToken {
                expected: TokenType::Assign,
                actual: TokenType::Int,
            },
            ParseError::UnexpectedToken {
                expected: TokenType::Ident,
                actual: TokenType::Assign,
            },
            ParseError::UnexpectedToken {
                expected: TokenType::Ident,
                actual: TokenType::Int,
            },
        ]
    );
    assert_eq!(
        program.statements,
        vec![
            Statement::Expression(Expression::IntegerLiteral(5)),
            Statement::Expression(Expression::IntegerLiteral(10)),
            Statement::Expression(Expression::IntegerLiteral(838383)),
        ]
    );
}

#[test]
fn statements_without_semicolon_at_end_of_input_terminate() {
    let (program, errors) = parse("let x = 5");
    assert!(errors.is_empty());
    assert_eq!(
        program.statements,
        vec![Statement::Let {
            name: Expression::Identifier(String::from("x")),
        }]
    );
    let (program, errors) = parse("return 5");
    assert!(errors.is_empty());
    assert_eq!(program.statements, vec![Statement::Return]);
    let (program, errors) = parse("let");
    assert_eq!(program.statements, vec![]);
    assert_eq!(
        errors,
        vec![ParseError::UnexpectedToken {
            expected: TokenType::Ident,
            actual: TokenType::Eof,
        }]
    );
}

#[test]
fn semicolon_after_expression_is_optional() {
    let (program, errors) = parse("a b; 7");
    assert!(errors.is_empty());
    assert_eq!(
        program.statements,
        vec![
            Statement::Expression(Expression::Identifier(String::from("a"))),
            Statement::Expression(Expression::Identifier(String::from("b"))),
            Statement::Expression(Expression::IntegerLiteral(7)),
        ]
    );
}

#[test]
fn tokens_without_prefix_rule_give_no_statement_and_no_error() {
    let (program, errors) = parse("= @ ; +");
    assert!(errors.is_empty());
    assert!(program.statements.is_empty());
}

#[test]
fn empty_source_gives_empty_program() {
    let (program, errors) = parse("");
    assert!(errors.is_empty());
    assert!(program.statements.is_empty());
}

#[test]
fn largest_integer_literal_fits() {
    let (program, errors) = parse("9223372036854775807;");
    assert!(errors.is_empty());
    assert_eq!(
        program.statements,
        vec![Statement::Expression(Expression::IntegerLiteral(i64::MAX))]
    );
}

#[test]
fn integer_literal_out_of_range_is_an_error_and_reads_as_zero() {
    let (program, errors) = parse("9223372036854775808;");
    assert_eq!(
        errors,
        vec![ParseError::FailedToParseInteger(String::from(
            "9223372036854775808"
        ))]
    );
    assert_eq!(
        program.statements,
        vec![Statement::Expression(Expression::IntegerLiteral(0))]
    );
}

#[test]
fn parse_decimal_values() {
    assert_eq!(parse_decimal(&String::from("0")), Some(0));
    assert_eq!(parse_decimal(&String::from("007")), Some(7));
    assert_eq!(parse_decimal(&String::from("838383")), Some(838383));
    assert_eq!(parse_decimal(&String::from("")), Some(0));
    assert_eq!(
        parse_decimal(&String::from("9223372036854775807")),
        Some(i64::MAX)
    );
    assert_eq!(parse_decimal(&String::from("9223372036854775808")), None);
    assert_eq!(parse_decimal(&String::from("100000000000000000000")), None);
}

#[test]
fn parsing_twice_gives_equal_results() {
    let source = "let x = 5;\nfoo; 12\nlet = 3;\nreturn x;";
    let first = parse(source);
    let second = parse(source);
    assert_eq!(first.0, second.0);
    assert_eq!(first.1, second.1);
    assert_eq!(first.1.len(), 1);
}

#[test]
fn parser_can_start_on_a_scanner_that_has_moved_on() {
    let mut lexer = Lexer::new("let x = 1; y");
    for _ in 0..5 {
        lexer.next_token();
    }
    let mut parser = Parser::new(lexer);
    let program = parser.parse_program();
    assert!(parser.errors().is_empty());
    assert_eq!(
        program.statements,
        vec![Statement::Expression(Expression::Identifier(String::from("y")))]
    );
    // A second call finds only the end token.
    let again = parser.parse_program();
    assert!(again.statements.is_empty());
}

#[test]
fn program_renders_one_statement_per_line() {
    let program = Program {
        statements: vec![
            Statement::Let {
                name: Expression::Identifier(String::from("myVar")),
            },
            Statement::Return,
            Statement::Expression(Expression::IntegerLiteral(-45)),
            Statement::Expression(Expression::Identifier(String::from("x"))),
        ],
    };
    assert_eq!(program.to_string(), "let myVar = \nreturn (TODO: 式);\n-45\nx\n");
    assert_eq!(Program { statements: vec![] }.to_string(), "");
}

#[test]
fn integer_literals_render_in_decimal() {
    assert_eq!(Expression::IntegerLiteral(0).to_string(), "0");
    assert_eq!(Expression::IntegerLiteral(838383).to_string(), "838383");
    assert_eq!(
        Expression::IntegerLiteral(i64::MAX).to_string(),
        "9223372036854775807"
    );
    assert_eq!(
        Expression::IntegerLiteral(i64::MIN).to_string(),
        "-9223372036854775808"
    );
    assert_eq!(
        Statement::Expression(Expression::IntegerLiteral(10)).to_string(),
        "10"
    );
}

#[test]
fn error_messages_name_the_tokens_and_the_text() {
    let unexpected = ParseError::UnexpectedToken {
        expected: TokenType::Ident,
        actual: TokenType::Assign,
    };
    assert_eq!(
        unexpected.message(),
        "expected next token to be Ident, got Assign instead"
    );
    let failed = ParseError::FailedToParseInteger(String::from("99999999999999999999"));
    assert_eq!(
        failed.message(),
        "could not parse 99999999999999999999 as integer"
    );
    assert_eq!(TokenType::NotEq.name(), "NotEq");
}

#[test]
fn precedence_levels_are_ordered() {
    assert!(Precedence::Lowest < Precedence::Equals);
    assert!(Precedence::Equals < Precedence::LessGreater);
    assert!(Precedence::LessGreater < Precedence::Sum);
    assert!(Precedence::Sum < Precedence::Product);
    assert!(Precedence::Product < Precedence::Prefix);
    assert!(Precedence::Prefix < Precedence::Call);
}

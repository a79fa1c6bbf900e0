use monkey::ast;
use monkey::lexer;
use monkey::parser;
use monkey::token::Token;
use monkey::token::TokenType;
#[test]
fn test_test_let_statements() {
    let input = "
        let x = 5;
        let y = 10;
        let foobar = 83838383;
        ";
    let program = read_program(input);
    assert_eq!(program.statements.len(), 3);

    let expected: Vec<ast::Statement> = vec![
        ast::Statement::Let {
            name: String::from("x"),
            right: ast::Expression::IntegerLiteral { value: 5 },
        },
        ast::Statement::Let {
            name: String::from("y"),
            right: ast::Expression::IntegerLiteral { value: 10 },
        },
        ast::Statement::Let {
            name: String::from("foobar"),
            right: ast::Expression::IntegerLiteral { value: 83838383 },
        },
    ];

    assert_eq!(program.statements, expected);
}

#[test]
fn test_return_statements() {
    let input = "
        return 1;
        return 3;
        ";
    let program = read_program(input);
    assert_eq!(program.statements.len(), 2);
    assert_eq!(
        program.statements,
        vec![
            ast::Statement::Return {
                value: ast::Expression::IntegerLiteral { value: 1 }
            },
            ast::Statement::Return {
                value: ast::Expression::IntegerLiteral { value: 3 }
            },
        ]
    )
}
fn read_program(input: &'static str) -> ast::Program {
    let mut lexer = lexer::new(input);
    let mut parser = parser::Parser::new(&mut lexer);
    parser.parse_program().unwrap()
}

#[test]
fn test_identifier_expression() {
    let input = "
            foobar;
            45;
        ";
    let program = read_program(input);
    assert_eq!(program.statements.len(), 2);
    assert_eq!(
        program.statements,
        vec![
            ast::Statement::Expression {
                expression: ast::Expression::Identifier {
                    value: String::from("foobar")
                }
            },
            ast::Statement::Expression {
                expression: ast::Expression::IntegerLiteral { value: 45 }
            },
        ]
    );
}

#[test]
fn test_prefix_expression() {
    let input = "
            -3;
            !whatever;
        ";
    let program = read_program(input);
    assert_eq!(program.statements.len(), 2);
    assert_eq!(
        program.statements,
        vec![
            ast::Statement::Expression {
                expression: ast::Expression::Prefix {
                    operator: ast::PrefixOperator::Minus,
                    right: Box::new(ast::Expression::IntegerLiteral { value: 3 }),
                }
            },
            ast::Statement::Expression {
                expression: ast::Expression::Prefix {
                    operator: ast::PrefixOperator::Bang,
                    right: Box::new(ast::Expression::Identifier {
                        value: String::from("whatever")
                    }),
                }
            },
        ],
    )
}

#[test]
fn test_boolean_expression() {
    let input = "
        true;
        false;
        ";
    let program = read_program(input);
    assert_eq!(
        program.statements,
        vec![
            ast::Statement::Expression {
                expression: ast::Expression::Boolean { value: true }
            },
            ast::Statement::Expression {
                expression: ast::Expression::Boolean { value: false }
            },
        ]
    )
}

#[test]
fn test_string_literal_expression() {
    let input = r#"
            "hi";
            "there";
        "#;
    let program = read_program(input);
    assert_eq!(
        program.statements,
        vec![
            ast::Statement::Expression {
                expression: ast::Expression::StringLiteral {
                    value: String::from("hi")
                }
            },
            ast::Statement::Expression {
                expression: ast::Expression::StringLiteral {
                    value: String::from("there")
                }
            },
        ]
    )
}

fn construct_simple_infix_test_case(
    left: i64,
    op: ast::InfixOperator,
    right: i64,
) -> ast::Statement {
    ast::Statement::Expression {
        expression: ast::Expression::Infix {
            left: Box::new(ast::Expression::IntegerLiteral { value: left }),
            operator: op,
            right: Box::new(ast::Expression::IntegerLiteral { value: right }),
        },
    }
}

fn run_paren_infix_test(no_parens: &'static str, with_parens: &'static str) {
    let program_noparens = read_program(no_parens);
    let first_statement = program_noparens.statements.get(0).unwrap();
    let expression = match first_statement {
        ast::Statement::Expression { expression } => expression,
        _ => panic!("Expected expression statement"),
    };
    assert_eq!(expression.to_string(), with_parens);
}

#[test]
fn test_simple_infix_expression() {
    let input = "
            1 + 2;
            2 - 3;
            2 * 3;
            2 / 3;
            2 > 3;
            2 < 3;
            2 == 3;
            2 != 3;
        ";
    let program = read_program(input);
    assert_eq!(program.statements.len(), 8);
    assert_eq!(
        program.statements,
        vec![
            construct_simple_infix_test_case(1, ast::InfixOperator::Plus, 2),
            construct_simple_infix_test_case(2, ast::InfixOperator::Minus, 3),
            construct_simple_infix_test_case(2, ast::InfixOperator::Multiply, 3),
            construct_simple_infix_test_case(2, ast::InfixOperator::Divide, 3),
            construct_simple_infix_test_case(2, ast::InfixOperator::Gt, 3),
            construct_simple_infix_test_case(2, ast::InfixOperator::Lt, 3),
            construct_simple_infix_test_case(2, ast::InfixOperator::Eq, 3),
            construct_simple_infix_test_case(2, ast::InfixOperator::NotEq, 3),
        ],
    )
}

#[test]
fn test_infix_parens() {
    run_paren_infix_test("-a * b", "((-a) * b)");
    run_paren_infix_test("!-a", "(!(-a))");
    run_paren_infix_test("a + b + c", "((a + b) + c)");
    run_paren_infix_test("a - b + c", "((a - b) + c)");
    run_paren_infix_test("a * b * c", "((a * b) * c)");
    run_paren_infix_test("a * b / c", "((a * b) / c)");
    run_paren_infix_test("a + b / c", "(a + (b / c))");
    run_paren_infix_test("(a + b) / c", "((a + b) / c)");
    run_paren_infix_test("a + ((b + c) + d)", "(a + ((b + c) + d))");
}

#[test]
fn test_test_if_expression() {
    let input = "if (x < y) { x }";
    let program = read_program(input);
    assert_eq!(
        program.statements,
        vec!(ast::Statement::Expression {
            expression: ast::Expression::If {
                condition: Box::new(ast::Expression::Infix {
                    left: Box::new(ast::Expression::Identifier {
                        value: String::from("x")
                    }),
                    operator: ast::InfixOperator::Lt,
                    right: Box::new(ast::Expression::Identifier {
                        value: String::from("y")
                    })
                }),
                consequence: ast::BlockStatement {
                    statements: vec!(ast::Statement::Expression {
                        expression: ast::Expression::Identifier {
                            value: String::from("x")
                        }
                    })
                },
                alternative: None,
            }
        })
    )
}

#[test]
fn test_if_else_expression() {
    let input = "if (x < y) { x } else { y }";
    let program = read_program(input);
    assert_eq!(
        program.statements,
        vec!(ast::Statement::Expression {
            expression: ast::Expression::If {
                condition: Box::new(ast::Expression::Infix {
                    left: Box::new(ast::Expression::Identifier {
                        value: String::from("x")
                    }),
                    operator: ast::InfixOperator::Lt,
                    right: Box::new(ast::Expression::Identifier {
                        value: String::from("y")
                    })
                }),
                consequence: ast::BlockStatement {
                    statements: vec!(ast::Statement::Expression {
                        expression: ast::Expression::Identifier {
                            value: String::from("x")
                        }
                    })
                },
                alternative: Some(ast::BlockStatement {
                    statements: vec!(ast::Statement::Expression {
                        expression: ast::Expression::Identifier {
                            value: String::from("y")
                        }
                    })
                }),
            }
        })
    )
}

#[test]
fn test_fn_literal() {
    let input = "
        fn (x, y) {
            x + y;
        }
        fn (x) {
            4;
        }
        fn () {
            3;
        }";
    let program = read_program(input);
    assert_eq!(
        program.statements,
        vec!(
            ast::Statement::Expression {
                expression: ast::Expression::FnLiteral {
                    param_names: vec!(String::from("x"), String::from("y")),
                    body: ast::BlockStatement {
                        statements: vec!(ast::Statement::Expression {
                            expression: ast::Expression::Infix {
                                left: Box::new(ast::Expression::Identifier {
                                    value: String::from("x")
                                }),
                                operator: ast::InfixOperator::Plus,
                                right: Box::new(ast::Expression::Identifier {
                                    value: String::from("y")
                                }),
                            }
                        })
                    }
                }
            },
            ast::Statement::Expression {
                expression: ast::Expression::FnLiteral {
                    param_names: vec!(String::from("x")),
                    body: ast::BlockStatement {
                        statements: vec!(ast::Statement::Expression {
                            expression: ast::Expression::IntegerLiteral { value: 4 }
                        })
                    }
                }
            },
            ast::Statement::Expression {
                expression: ast::Expression::FnLiteral {
                    param_names: vec!(),
                    body: ast::BlockStatement {
                        statements: vec!(ast::Statement::Expression {
                            expression: ast::Expression::IntegerLiteral { value: 3 },
                        })
                    }
                }
            }
        )
    )
}

#[test]
fn test_call_expression() {
    let input = "
        add();
        add(1);
        add(1 + 2, 3);
        fn(x, y){}(2);
        ";
    let program = read_program(input);
    assert_eq!(
        program.statements,
        vec!(
            ast::Statement::Expression {
                expression: ast::Expression::CallExpression {
                    left: Box::new(ast::Expression::Identifier {
                        value: String::from("add")
                    }),
                    arguments: vec!()
                }
            },
            ast::Statement::Expression {
                expression: ast::Expression::CallExpression {
                    left: Box::new(ast::Expression::Identifier {
                        value: String::from("add")
                    }),
                    arguments: vec!(ast::Expression::IntegerLiteral { value: 1 })
                }
            },
            ast::Statement::Expression {
                expression: ast::Expression::CallExpression {
                    left: Box::new(ast::Expression::Identifier {
                        value: String::from("add")
                    }),
                    arguments: vec!(
                        ast::Expression::Infix {
                            left: Box::new(ast::Expression::IntegerLiteral { value: 1 }),
                            operator: ast::InfixOperator::Plus,
                            right: Box::new(ast::Expression::IntegerLiteral { value: 2 }),
                        },
                        ast::Expression::IntegerLiteral { value: 3 }
                    )
                }
            },
            ast::Statement::Expression {
                expression: ast::Expression::CallExpression {
                    left: Box::new(ast::Expression::FnLiteral {
                        param_names: vec![String::from("x"), String::from("y")],
                        body: ast::BlockStatement { statements: vec![] },
                    }),
                    arguments: vec!(ast::Expression::IntegerLiteral { value: 2 })
                }
            }
        )
    )
}

#[test]
fn test_block_expression() {
    let input = "
        let a = {
            2;
            { 3 };
        };
        ";
    let program = read_program(input);
    assert_eq!(
        program.statements,
        vec!(ast::Statement::Let {
            name: String::from("a"),
            right: ast::Expression::Block {
                statements: vec![
                    ast::Statement::Expression {
                        expression: ast::Expression::IntegerLiteral { value: 2 }
                    },
                    ast::Statement::Expression {
                        expression: ast::Expression::Block {
                            statements: vec![ast::Statement::Expression {
                                expression: ast::Expression::IntegerLiteral { value: 3 }
                            }]
                        }
                    }
                ]
            }
        })
    )
}

fn parse(input: &str) -> Result<ast::Program, parser::ParserError> {
    let mut lexer = lexer::new(input);
    let mut parser = parser::Parser::new(&mut lexer);
    parser.parse_program()
}

fn written(input: &str) -> String {
    parse(input).unwrap().to_string()
}

#[test]
fn test_precedence_table() {
    assert_eq!(written("a + b * c"), "(a + (b * c));");
    assert_eq!(written("a + b + c"), "((a + b) + c);");
    assert_eq!(written("-a * b"), "((-a) * b);");
    assert_eq!(written("a * b + c"), "((a * b) + c);");
    assert_eq!(written("a - b - c"), "((a - b) - c);");
    assert_eq!(written("a / b * c"), "((a / b) * c);");
    assert_eq!(written("a / b / c"), "((a / b) / c);");
    assert_eq!(written("a + b - c"), "((a + b) - c);");
    assert_eq!(written("a < b == c > d"), "((a < b) == (c > d));");
    assert_eq!(written("a == b != c"), "((a == b) != c);");
    assert_eq!(written("a + b < c * d"), "((a + b) < (c * d));");
    assert_eq!(written("!a == b"), "((!a) == b);");
    assert_eq!(written("-f(x) + g(y)(z)"), "((-f(x)) + g(y)(z));");
    assert_eq!(written("a + f(b * c, d) * e"), "(a + (f((b * c), d) * e));");
    assert_eq!(written("1 + 2 * 3 - 4 / 5"), "((1 + (2 * 3)) - (4 / 5));");
}

#[test]
fn test_written_form() {
    assert_eq!(written("let x = 1 + 2;"), "let x = (1 + 2);");
    assert_eq!(written("return f(1, 2);"), "return f(1, 2);");
    assert_eq!(written("fn(a, b) { a; b }"), "fn(a, b) {a;b;};");
    assert_eq!(written("fn() { }"), "fn() {};");
    assert_eq!(written("if (a) { b } else { c }"), "if (a) {b;} else {c;};");
    assert_eq!(written("if (a) { b }"), "if (a) {b;} ;");
    assert_eq!(written("true; false"), "true;false;");
    assert_eq!(written("\"hi\""), "\"hi\";");
    assert_eq!(written("\"\""), "\"\";");
    assert_eq!(written("\"a b\" + \"c\""), "(\"a b\" + \"c\");");
    assert_eq!(written("{ 1 }"), "{1;};");
    assert_eq!(written("{ }"), "{};");
    assert_eq!(written("let a = { 2; { 3 } };"), "let a = {2;{3;};};");
    assert_eq!(written(""), "");
    assert_eq!(ast::PrefixOperator::Bang.to_string(), "!");
    assert_eq!(ast::PrefixOperator::Minus.to_string(), "-");
    assert_eq!(ast::InfixOperator::NotEq.to_string(), "!=");
    assert_eq!(ast::InfixOperator::Divide.to_string(), "/");
}

#[test]
fn test_written_form_parses_to_the_same_tree() {
    let inputs = [
        "a + b * c - d / e",
        "let x = -a * (b + c);",
        "return !(a == b) != (c < d);",
        "f(a, b + c)(d)",
        "if (a < b) { let c = a; c } else { return b; }",
        "if (a) { b }",
        "let add = fn(x, y) { x + y; }; add(1, add(2, 3));",
        "fn() { 1 }()",
        "1; 2; 3",
        "\"hi\"",
        "len(\"a b\") + len(\"\")",
        "let s = \"let\" + \"if (x) { y }\";",
        "{ 1 }",
        "let a = { 2; { 3 }; };",
        "{ let a = \"x\"; return a; }(1) + { }",
        "if ({ true }) { { 1 } } else { fn() { { } } }",
    ];
    for input in inputs.iter() {
        let first = parse(input).unwrap();
        let text = first.to_string();
        let second = parse(&text).unwrap();
        assert_eq!(first, second);
        assert_eq!(second.to_string(), text);
    }
}

#[test]
fn test_unexpected_token_errors() {
    match parse("let 5 = 3;") {
        Err(parser::ParserError::UnexpectedToken { expected, actual }) => {
            assert_eq!(expected, TokenType::Ident);
            assert_eq!(actual, Token::Int { literal: String::from("5") });
        }
        other => panic!("expected an error, got {:?}", other),
    }
    match parse("let x 3;") {
        Err(parser::ParserError::UnexpectedToken { expected, actual }) => {
            assert_eq!(expected, TokenType::Assign);
            assert_eq!(actual, Token::Int { literal: String::from("3") });
        }
        other => panic!("expected an error, got {:?}", other),
    }
    match parse("let x = 3") {
        Err(parser::ParserError::UnexpectedToken { expected, actual }) => {
            assert_eq!(expected, TokenType::Semicolon);
            assert_eq!(actual, Token::Eof);
        }
        other => panic!("expected an error, got {:?}", other),
    }
    match parse("return 1") {
        Err(parser::ParserError::UnexpectedToken { expected, actual }) => {
            assert_eq!(expected, TokenType::Semicolon);
            assert_eq!(actual, Token::Eof);
        }
        other => panic!("expected an error, got {:?}", other),
    }
    match parse("(1 + 2") {
        Err(parser::ParserError::UnexpectedToken { expected, actual }) => {
            assert_eq!(expected, TokenType::RParen);
            assert_eq!(actual, Token::Eof);
        }
        other => panic!("expected an error, got {:?}", other),
    }
    match parse("if x { 1 }") {
        Err(parser::ParserError::UnexpectedToken { expected, actual }) => {
            assert_eq!(expected, TokenType::LParen);
            assert_eq!(actual, Token::Ident { literal: String::from("x") });
        }
        other => panic!("expected an error, got {:?}", other),
    }
    match parse("fn(1) { }") {
        Err(parser::ParserError::UnexpectedToken { expected, actual }) => {
            assert_eq!(expected, TokenType::Ident);
            assert_eq!(actual, Token::Int { literal: String::from("1") });
        }
        other => panic!("expected an error, got {:?}", other),
    }
    match parse("fn(x) 1") {
        Err(parser::ParserError::UnexpectedToken { expected, actual }) => {
            assert_eq!(expected, TokenType::LBrace);
            assert_eq!(actual, Token::Int { literal: String::from("1") });
        }
        other => panic!("expected an error, got {:?}", other),
    }
}

#[test]
fn test_invalid_expression_errors() {
    let cases = [
        ("+ 1", Token::Plus),
        ("1 + ;", Token::Semicolon),
        ("let x = ;", Token::Semicolon),
        ("{ 1", Token::Eof),
        ("f(1, ", Token::Eof),
        ("@", Token::Illegal { literal: String::from("@") }),
        ("1 + )", Token::RParen),
        (
            "9223372036854775808",
            Token::Int { literal: String::from("9223372036854775808") },
        ),
    ];
    for (input, token) in cases.iter() {
        match parse(input) {
            Err(parser::ParserError::InvalidExpression { first_token }) => {
                assert_eq!(&first_token, token);
            }
            other => panic!("expected an error for {}, got {:?}", input, other),
        }
    }
}

#[test]
fn test_integer_literals_fit_in_64_bits() {
    assert_eq!(
        parse("9223372036854775807").unwrap().statements,
        vec![ast::Statement::Expression {
            expression: ast::Expression::IntegerLiteral { value: 9223372036854775807 }
        }]
    );
    assert_eq!(
        parse("007").unwrap().statements,
        vec![ast::Statement::Expression {
            expression: ast::Expression::IntegerLiteral { value: 7 }
        }]
    );
    assert!(parse("99999999999999999999").is_err());
}

#[test]
fn test_parser_error_messages() {
    let error = monkey::errors::MonkeyError::Parser(parse("let x = ;").unwrap_err());
    assert_eq!(
        error.to_string(),
        "Parser error: An expression cannot begin with token type Semicolon"
    );
    let error = monkey::errors::MonkeyError::Parser(parse("let 1").unwrap_err());
    assert_eq!(error.to_string(), "Parser error: Unexpected token. Expected Ident, got Int");
}

#[test]
fn test_empty_program() {
    assert_eq!(parse("").unwrap().statements, vec![]);
    assert_eq!(parse("  \n ").unwrap().statements, vec![]);
}

#[test]
fn test_texts_of_the_grammar_parse() {
    let cases = [
        ("a", 1),
        ("a; b; c", 3),
        ("a b c", 3),
        ("let x = 1; return x; x", 3),
        ("((a))", 1),
        ("(a + b) * ((c))", 1),
        ("a + b * c - d / e == f != g < h > i", 1),
        ("--a", 1),
        ("!-!a(b)(c, d) + -e", 1),
        ("f(a, b)(c)()", 1),
        ("f(g(h(1)), (2), -3)", 1),
        ("if (a) { b } else { c } + 1", 1),
        ("if (a) { } if (b) { c; d }", 2),
        ("fn(x, y) { x; y }(1, 2); fn() { }", 2),
        ("{ a; { b } c }", 1),
        ("{ } { }", 2),
        ("\"s\" + \"t\"; len(\"u\")", 2),
        ("let f = fn(n) { if (n < 2) { return n; } f(n - 1) + f(n - 2) }; f(9)", 2),
        ("9223372036854775807", 1),
        ("", 0),
    ];
    for (input, count) in cases.iter() {
        match parse(input) {
            Ok(program) => assert_eq!(program.statements.len(), *count, "{}", input),
            Err(error) => panic!("{} does not parse: {:?}", input, error),
        }
    }
}

use amp::ast::{Expr, Statement, Token};
use amp::{parse_program, AmpError};

#[test]
fn parses_let_statement() {
    let code = "let var = 5;
let is_true = true;
let is_false = false;";
    let expected = vec![
        Statement::Let {
            ident: Token::Identifier("var".to_string()),
            value: Box::new(Expr::Const(5)),
        },
        Statement::Let {
            ident: Token::Identifier("is_true".to_string()),
            value: Box::new(Expr::Boolean(true)),
        },
        Statement::Let {
            ident: Token::Identifier("is_false".to_string()),
            value: Box::new(Expr::Boolean(false)),
        },
    ];

    assert_eq!(parse_program(code), Ok(expected));
}

#[test]
fn parses_if_else() {
    let code = "if (x) {
    return 15;
}    else {
    return 30;
}
";
    let expected = vec![Statement::Expression(Box::new(Expr::If {
        condition: Box::new(Expr::Ident("x".to_string())),
        consequence: vec![Statement::Return {
            value: Box::new(Expr::Const(15)),
        }],
        alternative: vec![Statement::Return {
            value: Box::new(Expr::Const(30)),
        }],
    }))];

    assert_eq!(parse_program(code), Ok(expected));
}

#[test]
fn parses_if_else_multiple_statements() {
    let code = "
    if (!x) {
    let z = y;
    let y = x;
    let z = -1000;
    let y = !x;
    } else {
    let z = -1000;
    let y = !x;
    let z = -1000;
    let y = !x;
    }
    ";
    let expected = vec![Statement::Expression(Box::new(Expr::If {
        condition: Box::new(Expr::Prefix {
            prefix: Token::Bang,
            value: Box::new(Expr::Ident("x".to_string())),
        }),
        consequence: vec![
            Statement::Let {
                ident: Token::Identifier("z".to_string()),
                value: Box::new(Expr::Ident("y".to_string())),
            },
            Statement::Let {
                ident: Token::Identifier("y".to_string()),
                value: Box::new(Expr::Ident("x".to_string())),
            },
            Statement::Let {
                ident: Token::Identifier("z".to_string()),
                value: Box::new(Expr::Prefix {
                    prefix: Token::Minus,
                    value: Box::new(Expr::Const(1000)),
                }),
            },
            Statement::Let {
                ident: Token::Identifier("y".to_string()),
                value: Box::new(Expr::Prefix {
                    prefix: Token::Bang,
                    value: Box::new(Expr::Ident("x".to_string())),
                }),
            },
        ],
        alternative: vec![
            Statement::Let {
                ident: Token::Identifier("z".to_string()),
                value: Box::new(Expr::Prefix {
                    prefix: Token::Minus,
                    value: Box::new(Expr::Const(1000)),
                }),
            },
            Statement::Let {
                ident: Token::Identifier("y".to_string()),
                value: Box::new(Expr::Prefix {
                    prefix: Token::Bang,
                    value: Box::new(Expr::Ident("x".to_string())),
                }),
            },
            Statement::Let {
                ident: Token::Identifier("z".to_string()),
                value: Box::new(Expr::Prefix {
                    prefix: Token::Minus,
                    value: Box::new(Expr::Const(1000)),
                }),
            },
            Statement::Let {
                ident: Token::Identifier("y".to_string()),
                value: Box::new(Expr::Prefix {
                    prefix: Token::Bang,
                    value: Box::new(Expr::Ident("x".to_string())),
                }),
            },
        ],
    }))];

    assert_eq!(parse_program(code), Ok(expected));
}

#[test]
fn parses_prefix_expression() {
    let code = "
            -1000;
            !true;
            ";
    let expected = vec![
        Statement::Expression(Box::new(Expr::Prefix {
            prefix: Token::Minus,
            value: Box::new(Expr::Const(1000)),
        })),
        Statement::Expression(Box::new(Expr::Prefix {
            prefix: Token::Bang,
            value: Box::new(Expr::Boolean(true)),
        })),
    ];

    assert_eq!(parse_program(code), Ok(expected));
}

#[test]
fn product_binds_tighter_than_sum() {
    let expected = vec![Statement::Expression(Box::new(Expr::Infix {
        left: Box::new(Expr::Const(1)),
        operator: Token::Plus,
        right: Box::new(Expr::Infix {
            left: Box::new(Expr::Const(2)),
            operator: Token::Asterisk,
            right: Box::new(Expr::Const(3)),
        }),
    }))];
    assert_eq!(parse_program("1 + 2 * 3"), Ok(expected));

    let expected = vec![Statement::Expression(Box::new(Expr::Infix {
        left: Box::new(Expr::Infix {
            left: Box::new(Expr::Const(1)),
            operator: Token::Asterisk,
            right: Box::new(Expr::Const(2)),
        }),
        operator: Token::Plus,
        right: Box::new(Expr::Const(3)),
    }))];
    assert_eq!(parse_program("1 * 2 + 3"), Ok(expected));
}

#[test]
fn subtraction_is_left_associative() {
    let expected = vec![Statement::Expression(Box::new(Expr::Infix {
        left: Box::new(Expr::Infix {
            left: Box::new(Expr::Const(1)),
            operator: Token::Minus,
            right: Box::new(Expr::Const(2)),
        }),
        operator: Token::Minus,
        right: Box::new(Expr::Const(3)),
    }))];
    assert_eq!(parse_program("1 - 2 - 3"), Ok(expected));
}

#[test]
fn missing_assign_reports_unexpected_token() {
    assert_eq!(
        parse_program("let x 5;"),
        Err(AmpError::InvalidToken(Token::Integer(5), Token::Assign))
    );
}

#[test]
fn missing_expression_is_reported() {
    assert_eq!(
        parse_program("let x = ;"),
        Err(AmpError::MissingExpression(";".to_string()))
    );
}

#[test]
fn invalid_character_is_reported() {
    assert_eq!(
        parse_program("let x = @;"),
        Err(AmpError::InvalidCharacter('@'))
    );
    assert_eq!(parse_program("@"), Err(AmpError::InvalidCharacter('@')));
}

#[test]
fn integer_overflow_is_reported() {
    assert_eq!(
        parse_program("let x = 99999999999999999999;"),
        Err(AmpError::IntegerOverflow)
    );
}

#[test]
fn if_without_else_has_empty_alternative() {
    let expected = vec![Statement::Expression(Box::new(Expr::If {
        condition: Box::new(Expr::Ident("x".to_string())),
        consequence: vec![Statement::Return {
            value: Box::new(Expr::Const(15)),
        }],
        alternative: vec![],
    }))];
    assert_eq!(parse_program("if (x) { return 15; }"), Ok(expected));
}

#[test]
fn parses_function_literal_and_call() {
    let code = "let add = fn(x, y) { x + y; };
add(1, 2 + 3);";
    let expected = vec![
        Statement::Let {
            ident: Token::Identifier("add".to_string()),
            value: Box::new(Expr::Function {
                parameters: vec!["x".to_string(), "y".to_string()],
                body: vec![Statement::Expression(Box::new(Expr::Infix {
                    left: Box::new(Expr::Ident("x".to_string())),
                    operator: Token::Plus,
                    right: Box::new(Expr::Ident("y".to_string())),
                }))],
            }),
        },
        Statement::Expression(Box::new(Expr::Call {
            function: Box::new(Expr::Ident("add".to_string())),
            arguments: vec![
                Expr::Const(1),
                Expr::Infix {
                    left: Box::new(Expr::Const(2)),
                    operator: Token::Plus,
                    right: Box::new(Expr::Const(3)),
                },
            ],
        })),
    ];
    assert_eq!(parse_program(code), Ok(expected));
}

#[test]
fn parses_chained_calls() {
    let expected = vec![Statement::Expression(Box::new(Expr::Call {
        function: Box::new(Expr::Call {
            function: Box::new(Expr::Ident("f".to_string())),
            arguments: vec![],
        }),
        arguments: vec![Expr::Ident("x".to_string())],
    }))];
    assert_eq!(parse_program("f()(x);"), Ok(expected));
}

#[test]
fn parentheses_override_precedence() {
    let expected = vec![Statement::Expression(Box::new(Expr::Infix {
        left: Box::new(Expr::Infix {
            left: Box::new(Expr::Const(1)),
            operator: Token::Plus,
            right: Box::new(Expr::Const(2)),
        }),
        operator: Token::Asterisk,
        right: Box::new(Expr::Const(3)),
    }))];
    assert_eq!(parse_program("(1 + 2) * 3"), Ok(expected));
}

#[test]
fn comparison_operators_bind_looser_than_sums() {
    let expected = vec![Statement::Expression(Box::new(Expr::Infix {
        left: Box::new(Expr::Infix {
            left: Box::new(Expr::Ident("a".to_string())),
            operator: Token::Plus,
            right: Box::new(Expr::Const(1)),
        }),
        operator: Token::LessThanOrEqual,
        right: Box::new(Expr::Ident("b".to_string())),
    }))];
    assert_eq!(parse_program("a + 1 <= b"), Ok(expected));
}

#[test]
fn empty_input_parses_to_no_statements() {
    assert_eq!(parse_program(""), Ok(vec![]));
    assert_eq!(parse_program("   \n\t  "), Ok(vec![]));
}

#[test]
fn round_trip_of_let_with_large_literal() {
    let expected = vec![Statement::Let {
        ident: Token::Identifier("huge".to_string()),
        value: Box::new(Expr::Const(18446744073709551615)),
    }];
    assert_eq!(parse_program("let huge = 18446744073709551615;"), Ok(expected));
}

#[test]
fn canned_examples_return_their_trees() {
    let if_else = vec![Statement::Expression(Box::new(Expr::If {
        condition: Box::new(Expr::Ident("x".to_string())),
        consequence: vec![Statement::Return {
            value: Box::new(Expr::Const(15)),
        }],
        alternative: vec![Statement::Return {
            value: Box::new(Expr::Const(30)),
        }],
    }))];
    assert_eq!(amp::parses_if_else(), Ok(if_else));

    let lets = vec![
        Statement::Let {
            ident: Token::Identifier("var".to_string()),
            value: Box::new(Expr::Const(5)),
        },
        Statement::Let {
            ident: Token::Identifier("is_true".to_string()),
            value: Box::new(Expr::Boolean(true)),
        },
        Statement::Let {
            ident: Token::Identifier("is_false".to_string()),
            value: Box::new(Expr::Boolean(false)),
        },
    ];
    assert_eq!(amp::parses_let_statement(), Ok(lets));

    let prefixes = vec![
        Statement::Expression(Box::new(Expr::Prefix {
            prefix: Token::Minus,
            value: Box::new(Expr::Const(1000)),
        })),
        Statement::Expression(Box::new(Expr::Prefix {
            prefix: Token::Bang,
            value: Box::new(Expr::Boolean(true)),
        })),
    ];
    assert_eq!(amp::parses_prefix_expression(), Ok(prefixes));
}

use amp::ast::{EKeyword, Token};
use amp::lexer::Lexer;

#[test]
fn parses_simple_tokens() {
    let input = "{}[]()+=,";
    let expected = vec![
        Token::LeftCurlyBrace,
        Token::RightCurlyBrace,
        Token::LeftSquareBrace,
        Token::RightSquareBrace,
        Token::LeftParenthesis,
        Token::RightParenthesis,
        Token::Plus,
        Token::Assign,
        Token::Comma,
    ];

    let mut l = Lexer::new(input);

    for token in expected {
        assert_eq!(l.next_token(), token);
    }
}

#[test]
fn parses_simple_syntax() {
    let input = "let five = 5;
let add = fn(x, y) {
    x + y;
};

let result = add(5, 10);
";
    let expected = vec![
        Token::Keyword(EKeyword::Let),
        Token::Identifier("five".to_string()),
        Token::Assign,
        Token::Integer(5),
        Token::SemiColon,
        Token::Keyword(EKeyword::Let),
        Token::Identifier("add".to_string()),
        Token::Assign,
        Token::Keyword(EKeyword::Function),
        Token::LeftParenthesis,
        Token::Identifier("x".to_string()),
        Token::Comma,
        Token::Identifier("y".to_string()),
        Token::RightParenthesis,
        Token::LeftCurlyBrace,
        Token::Identifier("x".to_string()),
        Token::Plus,
        Token::Identifier("y".to_string()),
        Token::SemiColon,
        Token::RightCurlyBrace,
        Token::SemiColon,
        Token::Keyword(EKeyword::Let),
        Token::Identifier("result".to_string()),
        Token::Assign,
        Token::Identifier("add".to_string()),
        Token::LeftParenthesis,
        Token::Integer(5),
        Token::Comma,
        Token::Integer(10),
        Token::RightParenthesis,
        Token::SemiColon,
    ];

    let mut l = Lexer::new(input);

    for token in expected {
        assert_eq!(l.next_token(), token);
    }
}

#[test]
fn parses_if_else_return_true_false() {
    let input = "
let is_smaller = fn(x, y) {
    if x < y {
        return true;
    } else {
        return false;
    }
};

!is_smaller(3*4, 25/5);


";
    let expected = vec![
        Token::Keyword(EKeyword::Let),
        Token::Identifier("is_smaller".to_string()),
        Token::Assign,
        Token::Keyword(EKeyword::Function),
        Token::LeftParenthesis,
        Token::Identifier("x".to_string()),
        Token::Comma,
        Token::Identifier("y".to_string()),
        Token::RightParenthesis,
        Token::LeftCurlyBrace,
        Token::Keyword(EKeyword::If),
        Token::Identifier("x".to_string()),
        Token::LessThan,
        Token::Identifier("y".to_string()),
        Token::LeftCurlyBrace,
        Token::Keyword(EKeyword::Return),
        Token::Keyword(EKeyword::True),
        Token::SemiColon,
        Token::RightCurlyBrace,
        Token::Keyword(EKeyword::Else),
        Token::LeftCurlyBrace,
        Token::Keyword(EKeyword::Return),
        Token::Keyword(EKeyword::False),
        Token::SemiColon,
        Token::RightCurlyBrace,
        Token::RightCurlyBrace,
        Token::SemiColon,
        Token::Bang,
        Token::Identifier("is_smaller".to_string()),
        Token::LeftParenthesis,
        Token::Integer(3),
        Token::Asterisk,
        Token::Integer(4),
        Token::Comma,
        Token::Integer(25),
        Token::Slash,
        Token::Integer(5),
        Token::RightParenthesis,
        Token::SemiColon,
    ];

    let mut l = Lexer::new(input);

    for token in expected {
        assert_eq!(l.next_token(), token);
    }
}

#[test]
fn parses_double_char_operators() {
    let input = "
            x == 5;
            x != 6;
            x <= 3;
            x >= 4;
        ";

    let expected = vec![
        Token::Identifier("x".to_string()),
        Token::Equal,
        Token::Integer(5),
        Token::SemiColon,
        Token::Identifier("x".to_string()),
        Token::NotEqual,
        Token::Integer(6),
        Token::SemiColon,
        Token::Identifier("x".to_string()),
        Token::LessThanOrEqual,
        Token::Integer(3),
        Token::SemiColon,
        Token::Identifier("x".to_string()),
        Token::GreaterThanOrEqual,
        Token::Integer(4),
        Token::SemiColon,
    ];

    let mut l = Lexer::new(input);

    for token in expected {
        assert_eq!(l.next_token(), token);
    }
}

#[test]
fn equality_never_lexes_as_two_assigns() {
    // Three `=` in a row: the first two fuse to `==`, the last stands
    // alone; `!` not followed by `=` stays a bare `!`.
    let mut l = Lexer::new("=== ! =");
    assert_eq!(l.next_token(), Token::Equal);
    assert_eq!(l.next_token(), Token::Assign);
    assert_eq!(l.next_token(), Token::Bang);
    assert_eq!(l.next_token(), Token::Assign);
    assert_eq!(l.next_token(), Token::EOF);
}

#[test]
fn peek_is_idempotent() {
    let mut l = Lexer::new("let x = 5;");
    let first = l.peek_token();
    for _ in 0..10 {
        assert_eq!(l.peek_token(), first);
    }
    // A real scan returns the same token and only then advances.
    assert_eq!(l.next_token(), first);
    assert_eq!(l.next_token(), Token::Identifier("x".to_string()));
}

#[test]
fn identifiers_do_not_swallow_digits() {
    // Digits never continue an identifier: `x1` is `x` then `1`.
    let mut l = Lexer::new("x1");
    assert_eq!(l.next_token(), Token::Identifier("x".to_string()));
    assert_eq!(l.next_token(), Token::Integer(1));
}

#[test]
fn scans_overflowing_integer_literal() {
    let mut l = Lexer::new("18446744073709551615 18446744073709551616");
    assert_eq!(l.next_token(), Token::Integer(u64::MAX));
    assert_eq!(l.next_token(), Token::Overflow);
}

#[test]
fn scans_invalid_character() {
    let mut l = Lexer::new("x @ y");
    assert_eq!(l.next_token(), Token::Identifier("x".to_string()));
    assert_eq!(l.next_token(), Token::Invalid('@'));
    assert_eq!(l.next_token(), Token::Identifier("y".to_string()));
}

#[test]
fn rewind_rescans_the_same_token() {
    let mut l = Lexer::new("fn(");
    assert_eq!(l.next_token(), Token::Keyword(EKeyword::Function));
    l.rewind(2);
    assert_eq!(l.next_token(), Token::Keyword(EKeyword::Function));
    assert_eq!(l.next_token(), Token::LeftParenthesis);
    assert_eq!(l.next_token(), Token::EOF);
}

#[test]
fn underscores_are_identifier_characters() {
    let mut l = Lexer::new("_foo_bar baz");
    assert_eq!(l.next_token(), Token::Identifier("_foo_bar".to_string()));
    assert_eq!(l.next_token(), Token::Identifier("baz".to_string()));
    assert_eq!(l.next_token(), Token::EOF);
}

#[test]
fn is_last_reports_the_end_of_the_text() {
    let mut l = Lexer::new("ab c");
    assert!(!l.is_last());
    assert_eq!(l.next_token(), Token::Identifier("ab".to_string()));
    assert!(!l.is_last());
    assert_eq!(l.next_token(), Token::Identifier("c".to_string()));
    assert!(l.is_last());
}

#[test]
fn parser_window_describes_current_and_peek() {
    let p = amp::parser::Parser::new("let x = 5;");
    assert_eq!(p.dbg(), "current 'let', peek 'x'".to_string());
}

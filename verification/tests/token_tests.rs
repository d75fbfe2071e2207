use amp::ast::{EKeyword, Precedence, Token};

#[test]
fn from_char_maps_single_characters() {
    assert_eq!(Token::from_char('{'), Some(Token::LeftCurlyBrace));
    assert_eq!(Token::from_char('}'), Some(Token::RightCurlyBrace));
    assert_eq!(Token::from_char('['), Some(Token::LeftSquareBrace));
    assert_eq!(Token::from_char(']'), Some(Token::RightSquareBrace));
    assert_eq!(Token::from_char('('), Some(Token::LeftParenthesis));
    assert_eq!(Token::from_char(')'), Some(Token::RightParenthesis));
    assert_eq!(Token::from_char(','), Some(Token::Comma));
    assert_eq!(Token::from_char('='), Some(Token::Assign));
    assert_eq!(Token::from_char('+'), Some(Token::Plus));
    assert_eq!(Token::from_char('-'), Some(Token::Minus));
    assert_eq!(Token::from_char(';'), Some(Token::SemiColon));
    assert_eq!(Token::from_char('*'), Some(Token::Asterisk));
    assert_eq!(Token::from_char('!'), Some(Token::Bang));
    assert_eq!(Token::from_char('/'), Some(Token::Slash));
    assert_eq!(Token::from_char('<'), Some(Token::LessThan));
    assert_eq!(Token::from_char('>'), Some(Token::GreaterThan));
    assert_eq!(Token::from_char('a'), None);
    assert_eq!(Token::from_char('0'), None);
    assert_eq!(Token::from_char(' '), None);
}

#[test]
fn precedence_follows_the_operator_table() {
    assert_eq!(Token::Plus.precedence(), Precedence::Sum);
    assert_eq!(Token::Minus.precedence(), Precedence::Sum);
    assert_eq!(Token::Asterisk.precedence(), Precedence::Product);
    assert_eq!(Token::Slash.precedence(), Precedence::Product);
    assert_eq!(Token::Equal.precedence(), Precedence::Equals);
    assert_eq!(Token::NotEqual.precedence(), Precedence::Equals);
    assert_eq!(Token::LessThan.precedence(), Precedence::LessGreater);
    assert_eq!(Token::GreaterThan.precedence(), Precedence::LessGreater);
    assert_eq!(Token::LessThanOrEqual.precedence(), Precedence::LessGreater);
    assert_eq!(Token::GreaterThanOrEqual.precedence(), Precedence::LessGreater);
    assert_eq!(Token::SemiColon.precedence(), Precedence::Lowest);
    assert_eq!(Token::Identifier("x".to_string()).precedence(), Precedence::Lowest);
}

#[test]
fn literal_prints_token_text() {
    assert_eq!(Token::LeftCurlyBrace.literal(), "{".to_string());
    assert_eq!(Token::Equal.literal(), "==".to_string());
    assert_eq!(Token::NotEqual.literal(), "!=".to_string());
    assert_eq!(Token::Integer(0).literal(), "0".to_string());
    assert_eq!(Token::Integer(1234).literal(), "1234".to_string());
    assert_eq!(Token::Integer(18446744073709551615).literal(), "18446744073709551615".to_string());
    assert_eq!(Token::Identifier("answer".to_string()).literal(), "answer".to_string());
    assert_eq!(Token::Keyword(EKeyword::Return).literal(), "return".to_string());
    assert_eq!(Token::Keyword(EKeyword::Function).literal(), "fn".to_string());
    assert_eq!(Token::EOF.literal(), "".to_string());
    assert_eq!(Token::Invalid('@').literal(), "@".to_string());
}

#[test]
fn keyword_literals_round_trip_through_the_lexer() {
    for kw in [
        EKeyword::Function,
        EKeyword::Let,
        EKeyword::If,
        EKeyword::Else,
        EKeyword::True,
        EKeyword::False,
        EKeyword::Return,
    ] {
        let text = kw.literal();
        let mut l = amp::lexer::Lexer::new(&text);
        assert_eq!(l.next_token(), Token::Keyword(kw));
    }
}

use vstd::prelude::*;

verus! {

/// The reserved words of the language.
#[derive(Debug, PartialEq, Eq, Structural, Clone, Copy)]
pub enum EKeyword {
    Function,
    Let,
    If,
    Else,
    True,
    False,
    Return,
}

/// Binding strength of binary operators, from weakest to strongest.
#[derive(Debug, PartialEq, Eq, Structural, Clone, Copy)]
pub enum Precedence {
    Lowest,
    Equals,
    LessGreater,
    Sum,
    Product,
    Prefix,
}

/// Numeric level of a precedence, used to compare binding strengths in
/// specifications.
pub open spec fn prec_val(p: Precedence) -> int {
    match p {
        Precedence::Lowest => 0,
        Precedence::Equals => 1,
        Precedence::LessGreater => 2,
        Precedence::Sum => 3,
        Precedence::Product => 4,
        Precedence::Prefix => 5,
    }
}

impl Precedence {
    /// The numeric level of this precedence.
    pub fn level(&self) -> (r: u8)
        ensures
            r as int == prec_val(*self),
    {
        match self {
            Precedence::Lowest => 0,
            Precedence::Equals => 1,
            Precedence::LessGreater => 2,
            Precedence::Sum => 3,
            Precedence::Product => 4,
            Precedence::Prefix => 5,
        }
    }
}

/// One lexical unit of source text.
#[derive(Debug, PartialEq, Clone)]
pub enum Token {
    RightCurlyBrace,
    LeftCurlyBrace,
    RightSquareBrace,
    LeftSquareBrace,
    RightParenthesis,
    LeftParenthesis,
    Comma,
    SemiColon,
    Assign,
    Plus,
    Minus,
    Asterisk,
    Slash,
    Bang,
    LessThan,
    GreaterThan,
    Equal,
    NotEqual,
    LessThanOrEqual,
    GreaterThanOrEqual,
    EOF,
    Invalid(char),
    Overflow,
    Integer(u64),
    Identifier(String),
    Keyword(EKeyword),
}

/// Mathematical model of a `Token`: identical except that the identifier
/// name is a sequence of characters.
pub ghost enum TokenV {
    RightCurlyBrace,
    LeftCurlyBrace,
    RightSquareBrace,
    LeftSquareBrace,
    RightParenthesis,
    LeftParenthesis,
    Comma,
    SemiColon,
    Assign,
    Plus,
    Minus,
    Asterisk,
    Slash,
    Bang,
    LessThan,
    GreaterThan,
    Equal,
    NotEqual,
    LessThanOrEqual,
    GreaterThanOrEqual,
    EOF,
    Invalid(char),
    Overflow,
    Integer(u64),
    Identifier(Seq<char>),
    Keyword(EKeyword),
}

/// The token a single character maps to on its own.
pub open spec fn single_token(c: char) -> Option<TokenV> {
    match c {
        '{' => Some(TokenV::LeftCurlyBrace),
        '}' => Some(TokenV::RightCurlyBrace),
        '[' => Some(TokenV::LeftSquareBrace),
        ']' => Some(TokenV::RightSquareBrace),
        '(' => Some(TokenV::LeftParenthesis),
        ')' => Some(TokenV::RightParenthesis),
        ',' => Some(TokenV::Comma),
        '=' => Some(TokenV::Assign),
        '+' => Some(TokenV::Plus),
        '-' => Some(TokenV::Minus),
        ';' => Some(TokenV::SemiColon),
        '*' => Some(TokenV::Asterisk),
        '!' => Some(TokenV::Bang),
        '/' => Some(TokenV::Slash),
        '<' => Some(TokenV::LessThan),
        '>' => Some(TokenV::GreaterThan),
        _ => None,
    }
}

/// The binding strength a token has when it stands between two
/// operands; `Lowest` for anything that is not a binary operator.
pub open spec fn token_prec(t: TokenV) -> Precedence {
    match t {
        TokenV::Plus => Precedence::Sum,
        TokenV::Minus => Precedence::Sum,
        TokenV::Slash => Precedence::Product,
        TokenV::Asterisk => Precedence::Product,
        TokenV::Equal => Precedence::Equals,
        TokenV::NotEqual => Precedence::Equals,
        TokenV::LessThan => Precedence::LessGreater,
        TokenV::GreaterThan => Precedence::LessGreater,
        TokenV::LessThanOrEqual => Precedence::LessGreater,
        TokenV::GreaterThanOrEqual => Precedence::LessGreater,
        _ => Precedence::Lowest,
    }
}

impl Token {
    /// The structural token a single character maps to, if any.
    pub fn from_char(ch: char) -> (r: Option<Token>)
        ensures
            match single_token(ch) {
                Some(tv) => r is Some && token_view(r->0) == tv,
                None => r is None,
            },
    {
        match ch {
            '{' => Some(Token::LeftCurlyBrace),
            '}' => Some(Token::RightCurlyBrace),
            '[' => Some(Token::LeftSquareBrace),
            ']' => Some(Token::RightSquareBrace),
            '(' => Some(Token::LeftParenthesis),
            ')' => Some(Token::RightParenthesis),
            ',' => Some(Token::Comma),
            '=' => Some(Token::Assign),
            '+' => Some(Token::Plus),
            '-' => Some(Token::Minus),
            ';' => Some(Token::SemiColon),
            '*' => Some(Token::Asterisk),
            '!' => Some(Token::Bang),
            '/' => Some(Token::Slash),
            '<' => Some(Token::LessThan),
            '>' => Some(Token::GreaterThan),
            _ => None,
        }
    }

    /// The binding strength of this token as a binary operator.
    pub fn precedence(&self) -> (r: Precedence)
        ensures
            r == token_prec(token_view(*self)),
    {
        match self {
            Token::Plus => Precedence::Sum,
            Token::Minus => Precedence::Sum,
            Token::Slash => Precedence::Product,
            Token::Asterisk => Precedence::Product,
            Token::Equal => Precedence::Equals,
            Token::NotEqual => Precedence::Equals,
            Token::LessThan => Precedence::LessGreater,
            Token::GreaterThan => Precedence::LessGreater,
            Token::LessThanOrEqual => Precedence::LessGreater,
            Token::GreaterThanOrEqual => Precedence::LessGreater,
            _ => Precedence::Lowest,
        }
    }
}

/// The model a `Token` denotes.
pub open spec fn token_view(t: Token) -> TokenV {
    match t {
        Token::RightCurlyBrace => TokenV::RightCurlyBrace,
        Token::LeftCurlyBrace => TokenV::LeftCurlyBrace,
        Token::RightSquareBrace => TokenV::RightSquareBrace,
        Token::LeftSquareBrace => TokenV::LeftSquareBrace,
        Token::RightParenthesis => TokenV::RightParenthesis,
        Token::LeftParenthesis => TokenV::LeftParenthesis,
        Token::Comma => TokenV::Comma,
        Token::SemiColon => TokenV::SemiColon,
        Token::Assign => TokenV::Assign,
        Token::Plus => TokenV::Plus,
        Token::Minus => TokenV::Minus,
        Token::Asterisk => TokenV::Asterisk,
        Token::Slash => TokenV::Slash,
        Token::Bang => TokenV::Bang,
        Token::LessThan => TokenV::LessThan,
        Token::GreaterThan => TokenV::GreaterThan,
        Token::Equal => TokenV::Equal,
        Token::NotEqual => TokenV::NotEqual,
        Token::LessThanOrEqual => TokenV::LessThanOrEqual,
        Token::GreaterThanOrEqual => TokenV::GreaterThanOrEqual,
        Token::EOF => TokenV::EOF,
        Token::Invalid(c) => TokenV::Invalid(c),
        Token::Overflow => TokenV::Overflow,
        Token::Integer(n) => TokenV::Integer(n),
        Token::Identifier(s) => TokenV::Identifier(s@),
        Token::Keyword(k) => TokenV::Keyword(k),
    }
}

/// One statement of a parsed program.
#[derive(Debug, PartialEq)]
pub enum Statement {
    Let { ident: Token, value: Box<Expr> },
    Expression(Box<Expr>),
    Return { value: Box<Expr> },
    Empty,
}

/// One expression node of a parsed program.
#[derive(Debug, PartialEq)]
pub enum Expr {
    Const(u64),
    String(String),
    Boolean(bool),
    Ident(String),
    Prefix { prefix: Token, value: Box<Expr> },
    Infix { left: Box<Expr>, operator: Token, right: Box<Expr> },
    If { condition: Box<Expr>, consequence: Vec<Statement>, alternative: Vec<Statement> },
    Function { parameters: Vec<String>, body: Vec<Statement> },
    Call { function: Box<Expr>, arguments: Vec<Expr> },
    Unknown,
}

/// Mathematical model of a `Statement`.
pub ghost enum StmtV {
    Let { ident: TokenV, value: Box<ExprV> },
    Expression(Box<ExprV>),
    Return { value: Box<ExprV> },
    Empty,
}

/// Mathematical model of an `Expr`.
pub ghost enum ExprV {
    Const(u64),
    StrConst(Seq<char>),
    Boolean(bool),
    Ident(Seq<char>),
    Prefix { prefix: TokenV, value: Box<ExprV> },
    Infix { left: Box<ExprV>, operator: TokenV, right: Box<ExprV> },
    If { condition: Box<ExprV>, consequence: Seq<StmtV>, alternative: Seq<StmtV> },
    Function { parameters: Seq<Seq<char>>, body: Seq<StmtV> },
    Call { function: Box<ExprV>, arguments: Seq<ExprV> },
    Unknown,
}

/// The character for the decimal digit `d`.
pub open spec fn digit_char(d: int) -> char {
    ((d + 48) as u8) as char
}

/// The decimal digit characters of `n`, most significant first.
pub open spec fn u64_dec(n: int) -> Seq<char>
    decreases n,
{
    if n < 10 {
        seq![digit_char(n)]
    } else {
        u64_dec(n / 10).push(digit_char(n % 10))
    }
}

/// The text of a keyword.
pub open spec fn kw_chars(k: EKeyword) -> Seq<char> {
    match k {
        EKeyword::Function => seq!['f', 'n'],
        EKeyword::Let => seq!['l', 'e', 't'],
        EKeyword::If => seq!['i', 'f'],
        EKeyword::Else => seq!['e', 'l', 's', 'e'],
        EKeyword::True => seq!['t', 'r', 'u', 'e'],
        EKeyword::False => seq!['f', 'a', 'l', 's', 'e'],
        EKeyword::Return => seq!['r', 'e', 't', 'u', 'r', 'n'],
    }
}

/// The text a token stands for: its punctuation or operator characters,
/// the digits of an integer literal, the name of an identifier, the
/// word of a keyword, the offending character of an invalid token, and
/// empty text for the end-of-input and overflow markers.
pub open spec fn spec_literal(t: TokenV) -> Seq<char> {
    match t {
        TokenV::RightCurlyBrace => seq!['}'],
        TokenV::LeftCurlyBrace => seq!['{'],
        TokenV::RightSquareBrace => seq![']'],
        TokenV::LeftSquareBrace => seq!['['],
        TokenV::RightParenthesis => seq![')'],
        TokenV::LeftParenthesis => seq!['('],
        TokenV::Comma => seq![','],
        TokenV::SemiColon => seq![';'],
        TokenV::Assign => seq!['='],
        TokenV::Plus => seq!['+'],
        TokenV::Minus => seq!['-'],
        TokenV::Asterisk => seq!['*'],
        TokenV::Slash => seq!['/'],
        TokenV::Bang => seq!['!'],
        TokenV::LessThan => seq!['<'],
        TokenV::GreaterThan => seq!['>'],
        TokenV::Equal => seq!['=', '='],
        TokenV::NotEqual => seq!['!', '='],
        TokenV::LessThanOrEqual => seq!['<', '='],
        TokenV::GreaterThanOrEqual => seq!['>', '='],
        TokenV::EOF => Seq::empty(),
        TokenV::Invalid(c) => seq![c],
        TokenV::Overflow => Seq::empty(),
        TokenV::Integer(n) => u64_dec(n as int),
        TokenV::Identifier(s) => s,
        TokenV::Keyword(k) => kw_chars(k),
    }
}

impl EKeyword {
    /// The source text of this keyword.
    pub fn literal(&self) -> (r: String)
        ensures
            r@ == kw_chars(*self),
    {
        proof {
            reveal_strlit("fn");
            reveal_strlit("let");
            reveal_strlit("if");
            reveal_strlit("else");
            reveal_strlit("true");
            reveal_strlit("false");
            reveal_strlit("return");
            assert(("fn")@ =~= seq!['f', 'n']);
            assert(("let")@ =~= seq!['l', 'e', 't']);
            assert(("if")@ =~= seq!['i', 'f']);
            assert(("else")@ =~= seq!['e', 'l', 's', 'e']);
            assert(("true")@ =~= seq!['t', 'r', 'u', 'e']);
            assert(("false")@ =~= seq!['f', 'a', 'l', 's', 'e']);
            assert(("return")@ =~= seq!['r', 'e', 't', 'u', 'r', 'n']);
        }
        match self {
            EKeyword::Function => String::from_str("fn"),
            EKeyword::Let => String::from_str("let"),
            EKeyword::If => String::from_str("if"),
            EKeyword::Else => String::from_str("else"),
            EKeyword::True => String::from_str("true"),
            EKeyword::False => String::from_str("false"),
            EKeyword::Return => String::from_str("return"),
        }
    }
}

/// The text of a single decimal digit.
fn digit_str(d: u64) -> (r: &'static str)
    requires
        d < 10,
    ensures
        r@ == seq![digit_char(d as int)],
{
    proof {
        reveal_strlit("0");
        reveal_strlit("1");
        reveal_strlit("2");
        reveal_strlit("3");
        reveal_strlit("4");
        reveal_strlit("5");
        reveal_strlit("6");
        reveal_strlit("7");
        reveal_strlit("8");
        reveal_strlit("9");
        assert(("0")@ =~= seq![digit_char(0)]);
        assert(("1")@ =~= seq![digit_char(1)]);
        assert(("2")@ =~= seq![digit_char(2)]);
        assert(("3")@ =~= seq![digit_char(3)]);
        assert(("4")@ =~= seq![digit_char(4)]);
        assert(("5")@ =~= seq![digit_char(5)]);
        assert(("6")@ =~= seq![digit_char(6)]);
        assert(("7")@ =~= seq![digit_char(7)]);
        assert(("8")@ =~= seq![digit_char(8)]);
        assert(("9")@ =~= seq![digit_char(9)]);
    }
    match d {
        0 => "0",
        1 => "1",
        2 => "2",
        3 => "3",
        4 => "4",
        5 => "5",
        6 => "6",
        7 => "7",
        8 => "8",
        _ => "9",
    }
}

/// Append the decimal digits of `n` to `s`, most significant first.
fn push_decimal(s: &mut String, n: u64)
    ensures
        final(s)@ == old(s)@ + u64_dec(n as int),
    decreases n,
{
    if n >= 10 {
        push_decimal(s, n / 10);
    }
    let ghost mid = s@;
    s.append(digit_str(n % 10));
    proof {
        if n < 10 {
            assert(s@ =~= old(s)@ + u64_dec(n as int));
        } else {
            assert(u64_dec(n as int) == u64_dec(n as int / 10).push(digit_char(n as int % 10)));
            assert(s@ =~= old(s)@ + u64_dec(n as int));
        }
    }
}

/// Relies on alloc's `String::from` for `char`: the returned string
/// holds exactly the given character.
#[verifier::external_body]
fn char_to_string(c: char) -> (r: String)
    ensures
        r@ == seq![c],
{
    String::from(c)
}

impl Token {
    /// The source text this token stands for.
    pub fn literal(&self) -> (r: String)
        ensures
            r@ == spec_literal(token_view(*self)),
    {
        proof {
            reveal_strlit("{");
            reveal_strlit("}");
            reveal_strlit("[");
            reveal_strlit("]");
            reveal_strlit("(");
            reveal_strlit(")");
            reveal_strlit(",");
            reveal_strlit(";");
            reveal_strlit("=");
            reveal_strlit("+");
            reveal_strlit("-");
            reveal_strlit("*");
            reveal_strlit("/");
            reveal_strlit("!");
            reveal_strlit("<");
            reveal_strlit(">");
            reveal_strlit("==");
            reveal_strlit("!=");
            reveal_strlit("<=");
            reveal_strlit(">=");
            assert(("{")@ =~= seq!['{']);
            assert(("}")@ =~= seq!['}']);
            assert(("[")@ =~= seq!['[']);
            assert(("]")@ =~= seq![']']);
            assert(("(")@ =~= seq!['(']);
            assert((")")@ =~= seq![')']);
            assert((",")@ =~= seq![',']);
            assert((";")@ =~= seq![';']);
            assert(("=")@ =~= seq!['=']);
            assert(("+")@ =~= seq!['+']);
            assert(("-")@ =~= seq!['-']);
            assert(("*")@ =~= seq!['*']);
            assert(("/")@ =~= seq!['/']);
            assert(("!")@ =~= seq!['!']);
            assert(("<")@ =~= seq!['<']);
            assert((">")@ =~= seq!['>']);
            assert(("==")@ =~= seq!['=', '=']);
            assert(("!=")@ =~= seq!['!', '=']);
            assert(("<=")@ =~= seq!['<', '=']);
            assert((">=")@ =~= seq!['>', '=']);
        }
        match self {
            Token::RightCurlyBrace => String::from_str("}"),
            Token::LeftCurlyBrace => String::from_str("{"),
            Token::RightSquareBrace => String::from_str("]"),
            Token::LeftSquareBrace => String::from_str("["),
            Token::RightParenthesis => String::from_str(")"),
            Token::LeftParenthesis => String::from_str("("),
            Token::Comma => String::from_str(","),
            Token::SemiColon => String::from_str(";"),
            Token::Assign => String::from_str("="),
            Token::Plus => String::from_str("+"),
            Token::Minus => String::from_str("-"),
            Token::Asterisk => String::from_str("*"),
            Token::Slash => String::from_str("/"),
            Token::Bang => String::from_str("!"),
            Token::LessThan => String::from_str("<"),
            Token::GreaterThan => String::from_str(">"),
            Token::Equal => String::from_str("=="),
            Token::NotEqual => String::from_str("!="),
            Token::LessThanOrEqual => String::from_str("<="),
            Token::GreaterThanOrEqual => String::from_str(">="),
            Token::EOF => String::new(),
            Token::Invalid(c) => char_to_string(*c),
            Token::Overflow => String::new(),
            Token::Integer(n) => {
                let mut s = String::new();
                push_decimal(&mut s, *n);
                s
            },
            Token::Identifier(name) => name.clone(),
            Token::Keyword(k) => k.literal(),
        }
    }

    /// A token equal to this one, including any carried value.
    pub fn duplicate(&self) -> (r: Token)
        ensures
            token_view(r) == token_view(*self),
    {
        match self {
            Token::RightCurlyBrace => Token::RightCurlyBrace,
            Token::LeftCurlyBrace => Token::LeftCurlyBrace,
            Token::RightSquareBrace => Token::RightSquareBrace,
            Token::LeftSquareBrace => Token::LeftSquareBrace,
            Token::RightParenthesis => Token::RightParenthesis,
            Token::LeftParenthesis => Token::LeftParenthesis,
            Token::Comma => Token::Comma,
            Token::SemiColon => Token::SemiColon,
            Token::Assign => Token::Assign,
            Token::Plus => Token::Plus,
            Token::Minus => Token::Minus,
            Token::Asterisk => Token::Asterisk,
            Token::Slash => Token::Slash,
            Token::Bang => Token::Bang,
            Token::LessThan => Token::LessThan,
            Token::GreaterThan => Token::GreaterThan,
            Token::Equal => Token::Equal,
            Token::NotEqual => Token::NotEqual,
            Token::LessThanOrEqual => Token::LessThanOrEqual,
            Token::GreaterThanOrEqual => Token::GreaterThanOrEqual,
            Token::EOF => Token::EOF,
            Token::Invalid(c) => Token::Invalid(*c),
            Token::Overflow => Token::Overflow,
            Token::Integer(n) => Token::Integer(*n),
            Token::Identifier(name) => Token::Identifier(name.clone()),
            Token::Keyword(k) => Token::Keyword(*k),
        }
    }
}

/// Whether two tokens are equal, carried values included.
#[verifier::rlimit(50)]
pub fn token_eq(a: &Token, b: &Token) -> (r: bool)
    ensures
        r == (token_view(*a) == token_view(*b)),
{
    match (a, b) {
        (Token::RightCurlyBrace, Token::RightCurlyBrace) => true,
        (Token::LeftCurlyBrace, Token::LeftCurlyBrace) => true,
        (Token::RightSquareBrace, Token::RightSquareBrace) => true,
        (Token::LeftSquareBrace, Token::LeftSquareBrace) => true,
        (Token::RightParenthesis, Token::RightParenthesis) => true,
        (Token::LeftParenthesis, Token::LeftParenthesis) => true,
        (Token::Comma, Token::Comma) => true,
        (Token::SemiColon, Token::SemiColon) => true,
        (Token::Assign, Token::Assign) => true,
        (Token::Plus, Token::Plus) => true,
        (Token::Minus, Token::Minus) => true,
        (Token::Asterisk, Token::Asterisk) => true,
        (Token::Slash, Token::Slash) => true,
        (Token::Bang, Token::Bang) => true,
        (Token::LessThan, Token::LessThan) => true,
        (Token::GreaterThan, Token::GreaterThan) => true,
        (Token::Equal, Token::Equal) => true,
        (Token::NotEqual, Token::NotEqual) => true,
        (Token::LessThanOrEqual, Token::LessThanOrEqual) => true,
        (Token::GreaterThanOrEqual, Token::GreaterThanOrEqual) => true,
        (Token::EOF, Token::EOF) => true,
        (Token::Invalid(x), Token::Invalid(y)) => *x == *y,
        (Token::Overflow, Token::Overflow) => true,
        (Token::Integer(x), Token::Integer(y)) => *x == *y,
        (Token::Identifier(x), Token::Identifier(y)) => *x == *y,
        (Token::Keyword(x), Token::Keyword(y)) => *x == *y,
        _ => false,
    }
}

/// The model a `Statement` denotes.
pub open spec fn stmt_view(s: Statement) -> StmtV
    decreases s,
{
    match s {
        Statement::Let { ident, value } => StmtV::Let {
            ident: token_view(ident),
            value: Box::new(expr_view(*value)),
        },
        Statement::Expression(e) => StmtV::Expression(Box::new(expr_view(*e))),
        Statement::Return { value } => StmtV::Return { value: Box::new(expr_view(*value)) },
        Statement::Empty => StmtV::Empty,
    }
}

/// The model an `Expr` denotes.
pub open spec fn expr_view(e: Expr) -> ExprV
    decreases e,
{
    match e {
        Expr::Const(n) => ExprV::Const(n),
        Expr::String(s) => ExprV::StrConst(s@),
        Expr::Boolean(b) => ExprV::Boolean(b),
        Expr::Ident(s) => ExprV::Ident(s@),
        Expr::Prefix { prefix, value } => ExprV::Prefix {
            prefix: token_view(prefix),
            value: Box::new(expr_view(*value)),
        },
        Expr::Infix { left, operator, right } => ExprV::Infix {
            left: Box::new(expr_view(*left)),
            operator: token_view(operator),
            right: Box::new(expr_view(*right)),
        },
        Expr::If { condition, consequence, alternative } => ExprV::If {
            condition: Box::new(expr_view(*condition)),
            consequence: stmts_view(consequence@),
            alternative: stmts_view(alternative@),
        },
        Expr::Function { parameters, body } => ExprV::Function {
            parameters: parameters.deep_view(),
            body: stmts_view(body@),
        },
        Expr::Call { function, arguments } => ExprV::Call {
            function: Box::new(expr_view(*function)),
            arguments: exprs_view(arguments@),
        },
        Expr::Unknown => ExprV::Unknown,
    }
}

/// The models a sequence of statements denotes, element by element.
pub open spec fn stmts_view(ss: Seq<Statement>) -> Seq<StmtV>
    decreases ss,
{
    if ss.len() == 0 {
        Seq::empty()
    } else {
        seq![stmt_view(ss[0])] + stmts_view(ss.drop_first())
    }
}

/// The models a sequence of expressions denotes, element by element.
pub open spec fn exprs_view(es: Seq<Expr>) -> Seq<ExprV>
    decreases es,
{
    if es.len() == 0 {
        Seq::empty()
    } else {
        seq![expr_view(es[0])] + exprs_view(es.drop_first())
    }
}

} // verus!

use vstd::prelude::*;

verus! {

use crate::ast::{
    EKeyword, Expr, ExprV, Precedence, Statement, StmtV, Token, TokenV, exprs_view, expr_view,
    stmts_view, stmt_view, token_eq, token_view,
};
use crate::lexer::Lexer;
use crate::scan::{lemma_scan_bounds, nxt, scan, step, tok};
use crate::grammar::{
    sp_args, sp_args_more, sp_block, sp_expr, sp_fnlit, sp_if, sp_if_blocks, sp_let, sp_params,
    sp_params_more,
    sp_primary, sp_program, sp_return, sp_stmts, sp_tail,
};
use crate::{AmpError, ErrV, err_view};

broadcast use crate::lexer::Lexer::lemma_wf;

/// A recursive-descent parser over the token stream of one source
/// text, driven by the current token and one token of lookahead.
pub struct Parser<'s> {
    lexer: Lexer<'s>,
    current: Token,
    peek: Token,
    pos: Ghost<int>,
}

impl<'s> Parser<'s> {
    /// The text being parsed.
    pub closed spec fn text(&self) -> Seq<char> {
        self.lexer.text()
    }

    /// The position of the first character of the current token's
    /// remaining input: the token held in `current` is the one that
    /// starts here.
    pub closed spec fn pos(&self) -> int {
        self.pos@
    }

    /// The parser window is faithful to the scanner: `current` is the
    /// token at the parse position, `peek` the one after it, and the
    /// scanner stands just past both.
    pub closed spec fn wf(&self) -> bool {
        let s = self.lexer.text();
        &&& self.lexer.wf()
        &&& 0 <= self.pos@ <= s.len()
        &&& token_view(self.current) == tok(s, self.pos@)
        &&& token_view(self.peek) == tok(s, scan(s, self.pos@).1)
        &&& self.lexer.pos() == scan(s, scan(s, self.pos@).1).1
    }

    pub fn new(source: &'s str) -> (r: Parser<'s>)
        requires
            source.is_ascii(),
        ensures
            r.wf(),
            r.text() == source@,
            r.pos() == 0,
    {
        let mut lexer = Lexer::new(source);
        let current = lexer.next_token();
        let peek = lexer.next_token();
        Parser { lexer, current, peek, pos: Ghost(0) }
    }

    /// Shift the lookahead into the current token and scan a new
    /// lookahead: the parse position moves past the current token.
    fn next(&mut self)
        requires
            old(self).wf(),
        ensures
            final(self).wf(),
            final(self).text() == old(self).text(),
            final(self).pos() == scan(old(self).text(), old(self).pos()).1,
    {
        proof {
            lemma_scan_bounds(self.text(), self.pos@);
        }
        core::mem::swap(&mut self.current, &mut self.peek);
        self.peek = self.lexer.next_token();
        proof {
            self.pos@ = scan(self.text(), self.pos@).1;
        }
    }

    /// The parser window, described as text: the current token and
    /// the lookahead, by the text each stands for.
    pub fn dbg(&self) -> (r: String)
        requires
            self.wf(),
        ensures
            r@ == seq!['c', 'u', 'r', 'r', 'e', 'n', 't', ' ', '\''] + crate::ast::spec_literal(
                tok(self.text(), self.pos()),
            ) + seq!['\'', ',', ' ', 'p', 'e', 'e', 'k', ' ', '\''] + crate::ast::spec_literal(
                tok(self.text(), scan(self.text(), self.pos()).1),
            ) + seq!['\''],
    {
        proof {
            reveal_strlit("current '");
            reveal_strlit("', peek '");
            reveal_strlit("'");
            assert(("current '")@ =~= seq!['c', 'u', 'r', 'r', 'e', 'n', 't', ' ', '\'']);
            assert(("', peek '")@ =~= seq!['\'', ',', ' ', 'p', 'e', 'e', 'k', ' ', '\'']);
            assert(("'")@ =~= seq!['\'']);
        }
        let mut out = String::from_str("current '");
        out.append(self.current.literal().as_str());
        out.append("', peek '");
        out.append(self.peek.literal().as_str());
        out.append("'");
        out
    }

    /// Require two tokens to be equal; report the first as found and
    /// the second as expected otherwise.
    fn expect(&mut self, first: &Token, second: &Token) -> (r: Result<(), AmpError>)
        ensures
            *final(self) == *old(self),
            r is Ok <==> token_view(*first) == token_view(*second),
            r is Err ==> err_view(r->Err_0) == ErrV::InvalidToken(
                token_view(*first),
                token_view(*second),
            ),
    {
        if token_eq(first, second) {
            Ok(())
        } else {
            Err(AmpError::InvalidToken(first.duplicate(), second.duplicate()))
        }
    }

    /// Require the current token to be `token`.
    fn expect_current(&mut self, token: &Token) -> (r: Result<(), AmpError>)
        requires
            old(self).wf(),
        ensures
            *final(self) == *old(self),
            r is Ok <==> token_view(old(self).current) == token_view(*token),
            r is Err ==> err_view(r->Err_0) == ErrV::InvalidToken(
                tok(old(self).text(), old(self).pos()),
                token_view(*token),
            ),
    {
        let cur = self.current.duplicate();
        self.expect(&cur, token)
    }

    /// Require the lookahead token to be `token`.
    fn expect_peek(&mut self, token: &Token) -> (r: Result<(), AmpError>)
        requires
            old(self).wf(),
        ensures
            *final(self) == *old(self),
            r is Ok <==> token_view(old(self).peek) == token_view(*token),
            r is Err ==> err_view(r->Err_0) == ErrV::InvalidToken(
                tok(old(self).text(), scan(old(self).text(), old(self).pos()).1),
                token_view(*token),
            ),
    {
        let pk = self.peek.duplicate();
        self.expect(&pk, token)
    }

    /// Parse statements until the end of the input, a closing `}`, or
    /// an `else`; the closing token is left for the caller.
    #[verifier::rlimit(100)]
    pub fn parse(&mut self) -> (r: Result<Vec<Statement>, AmpError>)
        requires
            old(self).wf(),
        ensures
            final(self).wf(),
            final(self).text() == old(self).text(),
            r is Ok ==> (sp_stmts(old(self).text(), old(self).pos()) == Ok::<
                (Seq<StmtV>, int),
                ErrV,
            >((stmts_view(r->Ok_0@), final(self).pos())) && final(self).pos() >= old(self).pos()),
            r is Err ==> sp_stmts(old(self).text(), old(self).pos()) == Err::<
                (Seq<StmtV>, int),
                ErrV,
            >(err_view(r->Err_0)),
        decreases old(self).text().len() - old(self).pos(), 5int,
    {
        let ghost s = self.text();
        let ghost i0 = self.pos@;
        proof {
            lemma_scan_bounds(s, i0);
        }
        match &self.current {
            Token::EOF => Ok(Vec::new()),
            Token::RightCurlyBrace => Ok(Vec::new()),
            Token::Keyword(EKeyword::Else) => Ok(Vec::new()),
            Token::SemiColon => {
                self.next();
                self.parse()
            },
            Token::Invalid(c) => Err(AmpError::InvalidCharacter(*c)),
            Token::Overflow => Err(AmpError::IntegerOverflow),
            Token::Keyword(EKeyword::Let) => {
                let st = match self.parse_let_statement() {
                    Ok(st) => st,
                    Err(e) => {
                        return Err(e);
                    },
                };
                let rest = match self.parse() {
                    Ok(rest) => rest,
                    Err(e) => {
                        return Err(e);
                    },
                };
                let mut out = rest;
                out.insert(0, st);
                proof {
                    assert(out@.drop_first() =~= rest@);
                    assert(out@[0] == st);
                    assert(stmts_view(out@) =~= seq![stmt_view(st)] + stmts_view(rest@));
                }
                Ok(out)
            },
            Token::Keyword(EKeyword::Return) => {
                let st = match self.parse_return_statement() {
                    Ok(st) => st,
                    Err(e) => {
                        return Err(e);
                    },
                };
                let rest = match self.parse() {
                    Ok(rest) => rest,
                    Err(e) => {
                        return Err(e);
                    },
                };
                let mut out = rest;
                out.insert(0, st);
                proof {
                    assert(out@.drop_first() =~= rest@);
                    assert(out@[0] == st);
                    assert(stmts_view(out@) =~= seq![stmt_view(st)] + stmts_view(rest@));
                }
                Ok(out)
            },
            _ => {
                let e = match self.parse_expr(Precedence::Lowest) {
                    Ok(e) => e,
                    Err(er) => {
                        return Err(er);
                    },
                };
                let st = Statement::Expression(Box::new(e));
                let rest = match self.parse() {
                    Ok(rest) => rest,
                    Err(er) => {
                        return Err(er);
                    },
                };
                let mut out = rest;
                out.insert(0, st);
                proof {
                    assert(out@.drop_first() =~= rest@);
                    assert(out@[0] == st);
                    assert(stmts_view(out@) =~= seq![stmt_view(st)] + stmts_view(rest@));
                }
                Ok(out)
            },
        }
    }

    /// Parse `IDENT = EXPR ;`, standing on the `let` keyword.
    #[verifier::rlimit(100)]
    fn parse_let_statement(&mut self) -> (r: Result<Statement, AmpError>)
        requires
            old(self).wf(),
            token_view(old(self).current) == TokenV::Keyword(EKeyword::Let),
        ensures
            final(self).wf(),
            final(self).text() == old(self).text(),
            r is Ok ==> (sp_let(old(self).text(), nxt(old(self).text(), old(self).pos())) == Ok::<
                (StmtV, int),
                ErrV,
            >((stmt_view(r->Ok_0), final(self).pos())) && final(self).pos() > old(self).pos()),
            r is Err ==> sp_let(old(self).text(), nxt(old(self).text(), old(self).pos())) == Err::<
                (StmtV, int),
                ErrV,
            >(err_view(r->Err_0)),
        decreases old(self).text().len() - old(self).pos(), 1int,
    {
        let ghost s = self.text();
        let ghost i0 = self.pos@;
        proof {
            lemma_scan_bounds(s, i0);
        }
        self.next();
        let ghost i1 = self.pos@;
        proof {
            lemma_scan_bounds(s, i1);
        }
        let name = match &self.current {
            Token::Identifier(n) => n.clone(),
            _ => {
                return Err(
                    AmpError::InvalidToken(
                        self.current.duplicate(),
                        Token::Identifier(String::new()),
                    ),
                );
            },
        };
        match self.expect_peek(&Token::Assign) {
            Ok(u) => u,
            Err(e) => {
                return Err(e);
            },
        };
        self.next();
        proof {
            lemma_scan_bounds(s, self.pos@);
        }
        self.next();
        let value = match self.parse_expr(Precedence::Lowest) {
            Ok(v) => v,
            Err(e) => {
                return Err(e);
            },
        };
        proof {
            lemma_scan_bounds(s, self.pos@);
        }
        match self.expect_current(&Token::SemiColon) {
            Ok(u) => u,
            Err(e) => {
                return Err(e);
            },
        };
        self.next();
        Ok(Statement::Let { ident: Token::Identifier(name), value: Box::new(value) })
    }

    /// Parse `EXPR ;`, standing on the `return` keyword.
    #[verifier::rlimit(100)]
    fn parse_return_statement(&mut self) -> (r: Result<Statement, AmpError>)
        requires
            old(self).wf(),
            token_view(old(self).current) == TokenV::Keyword(EKeyword::Return),
        ensures
            final(self).wf(),
            final(self).text() == old(self).text(),
            r is Ok ==> (sp_return(old(self).text(), nxt(old(self).text(), old(self).pos()))
                == Ok::<(StmtV, int), ErrV>((stmt_view(r->Ok_0), final(self).pos())) && final(self).pos() > old(self).pos()),
            r is Err ==> sp_return(old(self).text(), nxt(old(self).text(), old(self).pos()))
                == Err::<(StmtV, int), ErrV>(err_view(r->Err_0)),
        decreases old(self).text().len() - old(self).pos(), 1int,
    {
        let ghost s = self.text();
        proof {
            lemma_scan_bounds(s, self.pos@);
        }
        self.next();
        let value = match self.parse_expr(Precedence::Lowest) {
            Ok(v) => v,
            Err(e) => {
                return Err(e);
            },
        };
        proof {
            lemma_scan_bounds(s, self.pos@);
        }
        match self.expect_current(&Token::SemiColon) {
            Ok(u) => u,
            Err(e) => {
                return Err(e);
            },
        };
        self.next();
        Ok(Statement::Return { value: Box::new(value) })
    }

    /// Parse one expression: a primary term and everything that binds
    /// more tightly than `precedence`.
    pub fn parse_expr(&mut self, precedence: Precedence) -> (r: Result<Expr, AmpError>)
        requires
            old(self).wf(),
        ensures
            final(self).wf(),
            final(self).text() == old(self).text(),
            r is Ok ==> (sp_expr(old(self).text(), old(self).pos(), precedence) == Ok::<
                (ExprV, int),
                ErrV,
            >((expr_view(r->Ok_0), final(self).pos())) && final(self).pos() > old(self).pos()),
            r is Err ==> sp_expr(old(self).text(), old(self).pos(), precedence) == Err::<
                (ExprV, int),
                ErrV,
            >(err_view(r->Err_0)),
        decreases old(self).text().len() - old(self).pos(), 3int,
    {
        let ghost s = self.text();
        let ghost i0 = self.pos@;
        let e = match self.parse_primary() {
            Ok(e) => e,
            Err(er) => {
                return Err(er);
            },
        };
        proof {
            assert(step(s, i0, self.pos@) == self.pos@);
        }
        self.parse_expr_tail(e, precedence)
    }

    /// Parse a primary term: a literal, an identifier, a prefix
    /// operator, a parenthesized expression, an `if` expression, or a
    /// function literal.
    #[verifier::rlimit(100)]
    fn parse_primary(&mut self) -> (r: Result<Expr, AmpError>)
        requires
            old(self).wf(),
        ensures
            final(self).wf(),
            final(self).text() == old(self).text(),
            r is Ok ==> (sp_primary(old(self).text(), old(self).pos()) == Ok::<
                (ExprV, int),
                ErrV,
            >((expr_view(r->Ok_0), final(self).pos())) && final(self).pos() > old(self).pos()),
            r is Err ==> sp_primary(old(self).text(), old(self).pos()) == Err::<
                (ExprV, int),
                ErrV,
            >(err_view(r->Err_0)),
        decreases old(self).text().len() - old(self).pos(), 2int,
    {
        let ghost s = self.text();
        let ghost i0 = self.pos@;
        proof {
            lemma_scan_bounds(s, i0);
        }
        match &self.current {
            Token::Integer(n) => {
                let v = *n;
                self.next();
                Ok(Expr::Const(v))
            },
            Token::Keyword(EKeyword::True) => {
                self.next();
                Ok(Expr::Boolean(true))
            },
            Token::Keyword(EKeyword::False) => {
                self.next();
                Ok(Expr::Boolean(false))
            },
            Token::Identifier(n) => {
                let nm = n.clone();
                self.next();
                Ok(Expr::Ident(nm))
            },
            Token::Bang => self.parse_prefix_expr(Token::Bang),
            Token::Minus => self.parse_prefix_expr(Token::Minus),
            Token::LeftParenthesis => {
                self.next();
                let v = match self.parse_expr(Precedence::Lowest) {
                    Ok(v) => v,
                    Err(e) => {
                        return Err(e);
                    },
                };
                proof {
                    lemma_scan_bounds(s, self.pos@);
                }
                match self.expect_current(&Token::RightParenthesis) {
                    Ok(u) => u,
                    Err(e) => {
                        return Err(e);
                    },
                };
                self.next();
                Ok(v)
            },
            Token::Keyword(EKeyword::If) => self.parse_if_expr(),
            Token::Keyword(EKeyword::Function) => self.parse_fn_literal(),
            Token::Invalid(c) => Err(AmpError::InvalidCharacter(*c)),
            Token::Overflow => Err(AmpError::IntegerOverflow),
            _ => Err(AmpError::MissingExpression(self.current.literal())),
        }
    }

    /// Parse a prefix operator applied to a term, standing on the
    /// operator, which the caller passes in.
    fn parse_prefix_expr(&mut self, prefix: Token) -> (r: Result<Expr, AmpError>)
        requires
            old(self).wf(),
            token_view(old(self).current) == token_view(prefix),
            token_view(prefix) == TokenV::Bang || token_view(prefix) == TokenV::Minus,
        ensures
            final(self).wf(),
            final(self).text() == old(self).text(),
            r is Ok ==> (sp_primary(old(self).text(), old(self).pos()) == Ok::<
                (ExprV, int),
                ErrV,
            >((expr_view(r->Ok_0), final(self).pos())) && final(self).pos() > old(self).pos()),
            r is Err ==> sp_primary(old(self).text(), old(self).pos()) == Err::<
                (ExprV, int),
                ErrV,
            >(err_view(r->Err_0)),
        decreases old(self).text().len() - old(self).pos(), 1int,
    {
        let ghost s = self.text();
        proof {
            lemma_scan_bounds(s, self.pos@);
        }
        self.next();
        let value = match self.parse_expr(Precedence::Prefix) {
            Ok(v) => v,
            Err(e) => {
                return Err(e);
            },
        };
        Ok(Expr::Prefix { prefix, value: Box::new(value) })
    }

    /// Fold onto `left` every binary operator that binds more tightly
    /// than `precedence`, and every call-argument list.
    fn parse_expr_tail(&mut self, left: Expr, precedence: Precedence) -> (r: Result<
        Expr,
        AmpError,
    >)
        requires
            old(self).wf(),
        ensures
            final(self).wf(),
            final(self).text() == old(self).text(),
            r is Ok ==> (sp_tail(old(self).text(), old(self).pos(), expr_view(left), precedence)
                == Ok::<(ExprV, int), ErrV>((expr_view(r->Ok_0), final(self).pos())) && final(self).pos() >= old(self).pos()),
            r is Err ==> sp_tail(old(self).text(), old(self).pos(), expr_view(left), precedence)
                == Err::<(ExprV, int), ErrV>(err_view(r->Err_0)),
        decreases old(self).text().len() - old(self).pos(), 0int,
    {
        let ghost s = self.text();
        let ghost i0 = self.pos@;
        proof {
            lemma_scan_bounds(s, i0);
        }
        if token_eq(&self.current, &Token::LeftParenthesis) {
            self.next();
            let args = match self.parse_call_args() {
                Ok(args) => args,
                Err(e) => {
                    return Err(e);
                },
            };
            proof {
                assert(step(s, i0, self.pos@) == self.pos@);
            }
            let callee = Expr::Call { function: Box::new(left), arguments: args };
            self.parse_expr_tail(callee, precedence)
        } else {
            let tp = self.current.precedence();
            if tp.level() > precedence.level() {
                let op = self.current.duplicate();
                self.next();
                let rhs = match self.parse_expr(tp) {
                    Ok(v) => v,
                    Err(e) => {
                        return Err(e);
                    },
                };
                proof {
                    assert(step(s, i0, self.pos@) == self.pos@);
                }
                let node = Expr::Infix {
                    left: Box::new(left),
                    operator: op,
                    right: Box::new(rhs),
                };
                self.parse_expr_tail(node, precedence)
            } else {
                Ok(left)
            }
        }
    }

    /// Parse `( EXPR ) { BLOCK }` and an optional `else { BLOCK }`,
    /// standing on the `if` keyword; a missing `else` yields an empty
    /// alternative.
    #[verifier::rlimit(100)]
    fn parse_if_expr(&mut self) -> (r: Result<Expr, AmpError>)
        requires
            old(self).wf(),
            token_view(old(self).current) == TokenV::Keyword(EKeyword::If),
        ensures
            final(self).wf(),
            final(self).text() == old(self).text(),
            r is Ok ==> (sp_if(old(self).text(), nxt(old(self).text(), old(self).pos())) == Ok::<
                (ExprV, int),
                ErrV,
            >((expr_view(r->Ok_0), final(self).pos())) && final(self).pos() > old(self).pos()),
            r is Err ==> sp_if(old(self).text(), nxt(old(self).text(), old(self).pos())) == Err::<
                (ExprV, int),
                ErrV,
            >(err_view(r->Err_0)),
        decreases old(self).text().len() - old(self).pos(), 1int,
    {
        let ghost s = self.text();
        let ghost i0 = self.pos@;
        proof {
            lemma_scan_bounds(s, i0);
        }
        self.next();
        let ghost i1 = self.pos@;
        match self.expect_current(&Token::LeftParenthesis) {
            Ok(u) => u,
            Err(e) => {
                return Err(e);
            },
        };
        proof {
            lemma_scan_bounds(s, i1);
        }
        self.next();
        let cond = match self.parse_expr(Precedence::Lowest) {
            Ok(v) => v,
            Err(e) => {
                return Err(e);
            },
        };
        proof {
            lemma_scan_bounds(s, self.pos@);
        }
        match self.expect_current(&Token::RightParenthesis) {
            Ok(u) => u,
            Err(e) => {
                return Err(e);
            },
        };
        self.next();
        proof {
            assert(step(s, i1, self.pos@) == self.pos@);
        }
        self.parse_if_blocks(cond)
    }

    /// Parse the blocks of an `if` expression, standing on the `{`
    /// that opens the consequence.
    fn parse_if_blocks(&mut self, cond: Expr) -> (r: Result<Expr, AmpError>)
        requires
            old(self).wf(),
        ensures
            final(self).wf(),
            final(self).text() == old(self).text(),
            r is Ok ==> (sp_if_blocks(old(self).text(), old(self).pos(), expr_view(cond)) == Ok::<
                (ExprV, int),
                ErrV,
            >((expr_view(r->Ok_0), final(self).pos())) && final(self).pos() > old(self).pos()),
            r is Err ==> sp_if_blocks(old(self).text(), old(self).pos(), expr_view(cond)) == Err::<
                (ExprV, int),
                ErrV,
            >(err_view(r->Err_0)),
        decreases old(self).text().len() - old(self).pos(), 2int,
    {
        let ghost s = self.text();
        let ghost i0 = self.pos@;
        let cons = match self.parse_curly_block() {
            Ok(v) => v,
            Err(e) => {
                return Err(e);
            },
        };
        proof {
            lemma_scan_bounds(s, self.pos@);
        }
        if token_eq(&self.current, &Token::Keyword(EKeyword::Else)) {
            self.next();
            proof {
                assert(step(s, i0, self.pos@) == self.pos@);
            }
            let alt = match self.parse_curly_block() {
                Ok(v) => v,
                Err(e) => {
                    return Err(e);
                },
            };
            Ok(
                Expr::If {
                    condition: Box::new(cond),
                    consequence: cons,
                    alternative: alt,
                },
            )
        } else {
            proof {
                assert(stmts_view(Seq::<Statement>::empty()) =~= Seq::<StmtV>::empty());
            }
            Ok(
                Expr::If {
                    condition: Box::new(cond),
                    consequence: cons,
                    alternative: Vec::new(),
                },
            )
        }
    }

    /// Parse `{ STATEMENTS }`, standing on the opening brace.
    fn parse_curly_block(&mut self) -> (r: Result<Vec<Statement>, AmpError>)
        requires
            old(self).wf(),
        ensures
            final(self).wf(),
            final(self).text() == old(self).text(),
            r is Ok ==> (sp_block(old(self).text(), old(self).pos()) == Ok::<
                (Seq<StmtV>, int),
                ErrV,
            >((stmts_view(r->Ok_0@), final(self).pos())) && final(self).pos() > old(self).pos()),
            r is Err ==> sp_block(old(self).text(), old(self).pos()) == Err::<
                (Seq<StmtV>, int),
                ErrV,
            >(err_view(r->Err_0)),
        decreases old(self).text().len() - old(self).pos(), 1int,
    {
        let ghost s = self.text();
        let ghost i0 = self.pos@;
        proof {
            lemma_scan_bounds(s, i0);
        }
        match self.expect_current(&Token::LeftCurlyBrace) {
            Ok(u) => u,
            Err(e) => {
                return Err(e);
            },
        };
        self.next();
        let stmts = match self.parse() {
            Ok(v) => v,
            Err(e) => {
                return Err(e);
            },
        };
        proof {
            lemma_scan_bounds(s, self.pos@);
        }
        match self.expect_current(&Token::RightCurlyBrace) {
            Ok(u) => u,
            Err(e) => {
                return Err(e);
            },
        };
        self.next();
        Ok(stmts)
    }

    /// Parse `( PARAM, ... ) { BLOCK }`, standing on the `fn` keyword.
    #[verifier::rlimit(100)]
    fn parse_fn_literal(&mut self) -> (r: Result<Expr, AmpError>)
        requires
            old(self).wf(),
            token_view(old(self).current) == TokenV::Keyword(EKeyword::Function),
        ensures
            final(self).wf(),
            final(self).text() == old(self).text(),
            r is Ok ==> (sp_fnlit(old(self).text(), nxt(old(self).text(), old(self).pos()))
                == Ok::<(ExprV, int), ErrV>((expr_view(r->Ok_0), final(self).pos())) && final(self).pos() > old(self).pos()),
            r is Err ==> sp_fnlit(old(self).text(), nxt(old(self).text(), old(self).pos()))
                == Err::<(ExprV, int), ErrV>(err_view(r->Err_0)),
        decreases old(self).text().len() - old(self).pos(), 1int,
    {
        let ghost s = self.text();
        let ghost i0 = self.pos@;
        proof {
            lemma_scan_bounds(s, i0);
        }
        self.next();
        let ghost i1 = self.pos@;
        match self.expect_current(&Token::LeftParenthesis) {
            Ok(u) => u,
            Err(e) => {
                return Err(e);
            },
        };
        proof {
            lemma_scan_bounds(s, i1);
        }
        self.next();
        let params = match self.parse_fn_params() {
            Ok(v) => v,
            Err(e) => {
                return Err(e);
            },
        };
        proof {
            assert(step(s, i1, self.pos@) == self.pos@);
        }
        let body = match self.parse_curly_block() {
            Ok(v) => v,
            Err(e) => {
                return Err(e);
            },
        };
        Ok(Expr::Function { parameters: params, body })
    }

    /// Parse a possibly empty, comma-separated list of parameter
    /// names, consuming the closing `)`.
    fn parse_fn_params(&mut self) -> (r: Result<Vec<String>, AmpError>)
        requires
            old(self).wf(),
        ensures
            final(self).wf(),
            final(self).text() == old(self).text(),
            r is Ok ==> (sp_params(old(self).text(), old(self).pos()) == Ok::<
                (Seq<Seq<char>>, int),
                ErrV,
            >((r->Ok_0.deep_view(), final(self).pos())) && final(self).pos() > old(self).pos()),
            r is Err ==> sp_params(old(self).text(), old(self).pos()) == Err::<
                (Seq<Seq<char>>, int),
                ErrV,
            >(err_view(r->Err_0)),
        decreases old(self).text().len() - old(self).pos(), 1int,
    {
        let ghost s = self.text();
        let ghost i0 = self.pos@;
        proof {
            lemma_scan_bounds(s, i0);
        }
        match &self.current {
            Token::RightParenthesis => {
                self.next();
                let out: Vec<String> = Vec::new();
                proof {
                    assert(out.deep_view() =~= Seq::<Seq<char>>::empty());
                }
                Ok(out)
            },
            Token::Identifier(n) => {
                let nm = n.clone();
                self.next();
                let mut acc: Vec<String> = Vec::new();
                acc.push(nm);
                proof {
                    assert(acc.deep_view() =~= seq![acc@[0]@]);
                }
                self.parse_fn_params_more(acc)
            },
            _ => Err(
                AmpError::InvalidToken(self.current.duplicate(), Token::Identifier(String::new())),
            ),
        }
    }

    /// Parse the rest of a parameter list after its first name: `)`
    /// ends it, `, IDENT` continues it.
    fn parse_fn_params_more(&mut self, acc: Vec<String>) -> (r: Result<Vec<String>, AmpError>)
        requires
            old(self).wf(),
        ensures
            final(self).wf(),
            final(self).text() == old(self).text(),
            r is Ok ==> (sp_params_more(old(self).text(), old(self).pos(), acc.deep_view())
                == Ok::<(Seq<Seq<char>>, int), ErrV>((r->Ok_0.deep_view(), final(self).pos()))
                && final(self).pos() > old(self).pos()),
            r is Err ==> sp_params_more(old(self).text(), old(self).pos(), acc.deep_view())
                == Err::<(Seq<Seq<char>>, int), ErrV>(err_view(r->Err_0)),
        decreases old(self).text().len() - old(self).pos(), 1int,
    {
        let ghost s = self.text();
        let ghost i0 = self.pos@;
        proof {
            lemma_scan_bounds(s, i0);
        }
        match &self.current {
            Token::RightParenthesis => {
                self.next();
                Ok(acc)
            },
            Token::Comma => {
                self.next();
                let ghost i1 = self.pos@;
                proof {
                    lemma_scan_bounds(s, i1);
                }
                match &self.current {
                    Token::Identifier(n) => {
                        let nm = n.clone();
                        self.next();
                        let mut acc2 = acc;
                        acc2.push(nm);
                        proof {
                            assert(acc2.deep_view() =~= acc.deep_view().push(acc2@[acc.len()
                                as int]@));
                        }
                        self.parse_fn_params_more(acc2)
                    },
                    _ => Err(
                        AmpError::InvalidToken(
                            self.current.duplicate(),
                            Token::Identifier(String::new()),
                        ),
                    ),
                }
            },
            _ => Err(AmpError::InvalidToken(self.current.duplicate(), Token::RightParenthesis)),
        }
    }

    /// Parse a possibly empty, comma-separated list of argument
    /// expressions, consuming the closing `)`.
    fn parse_call_args(&mut self) -> (r: Result<Vec<Expr>, AmpError>)
        requires
            old(self).wf(),
        ensures
            final(self).wf(),
            final(self).text() == old(self).text(),
            r is Ok ==> (sp_args(old(self).text(), old(self).pos()) == Ok::<
                (Seq<ExprV>, int),
                ErrV,
            >((exprs_view(r->Ok_0@), final(self).pos())) && final(self).pos() > old(self).pos()),
            r is Err ==> sp_args(old(self).text(), old(self).pos()) == Err::<
                (Seq<ExprV>, int),
                ErrV,
            >(err_view(r->Err_0)),
        decreases old(self).text().len() - old(self).pos(), 4int,
    {
        let ghost s = self.text();
        let ghost i0 = self.pos@;
        proof {
            lemma_scan_bounds(s, i0);
        }
        if token_eq(&self.current, &Token::RightParenthesis) {
            self.next();
            let out: Vec<Expr> = Vec::new();
            proof {
                assert(exprs_view(out@) =~= Seq::<ExprV>::empty());
            }
            Ok(out)
        } else {
            let first = match self.parse_expr(Precedence::Lowest) {
                Ok(v) => v,
                Err(e) => {
                    return Err(e);
                },
            };
            proof {
                assert(step(s, i0, self.pos@) == self.pos@);
            }
            let mut acc: Vec<Expr> = Vec::new();
            acc.push(first);
            proof {
                reveal_with_fuel(exprs_view, 2);
                assert(acc@.drop_first() =~= Seq::<Expr>::empty());
                assert(exprs_view(acc@) =~= seq![expr_view(acc@[0])]);
            }
            self.parse_call_args_more(acc)
        }
    }

    /// Parse the rest of an argument list after its first expression:
    /// `)` ends it, `, EXPR` continues it.
    fn parse_call_args_more(&mut self, acc: Vec<Expr>) -> (r: Result<Vec<Expr>, AmpError>)
        requires
            old(self).wf(),
        ensures
            final(self).wf(),
            final(self).text() == old(self).text(),
            r is Ok ==> (sp_args_more(old(self).text(), old(self).pos(), exprs_view(acc@))
                == Ok::<(Seq<ExprV>, int), ErrV>((exprs_view(r->Ok_0@), final(self).pos()))
                && final(self).pos() > old(self).pos()),
            r is Err ==> sp_args_more(old(self).text(), old(self).pos(), exprs_view(acc@))
                == Err::<(Seq<ExprV>, int), ErrV>(err_view(r->Err_0)),
        decreases old(self).text().len() - old(self).pos(), 4int,
    {
        let ghost s = self.text();
        let ghost i0 = self.pos@;
        proof {
            lemma_scan_bounds(s, i0);
        }
        match &self.current {
            Token::RightParenthesis => {
                self.next();
                Ok(acc)
            },
            Token::Comma => {
                self.next();
                let e = match self.parse_expr(Precedence::Lowest) {
                    Ok(v) => v,
                    Err(er) => {
                        return Err(er);
                    },
                };
                proof {
                    assert(step(s, i0, self.pos@) == self.pos@);
                }
                let mut acc2 = acc;
                acc2.push(e);
                proof {
                    lemma_exprs_view_push(acc@, e);
                    assert(acc2@ =~= acc@.push(e));
                }
                self.parse_call_args_more(acc2)
            },
            _ => Err(AmpError::InvalidToken(self.current.duplicate(), Token::RightParenthesis)),
        }
    }
}

/// Viewing a sequence of expressions commutes with appending one.
proof fn lemma_exprs_view_push(es: Seq<Expr>, x: Expr)
    ensures
        exprs_view(es.push(x)) == exprs_view(es).push(expr_view(x)),
    decreases es.len(),
{
    reveal_with_fuel(exprs_view, 3);
    if es.len() == 0 {
        assert(es.push(x).drop_first() =~= Seq::<Expr>::empty());
        assert(es.push(x)[0] == x);
        assert(exprs_view(es.push(x)) =~= exprs_view(es).push(expr_view(x)));
    } else {
        lemma_exprs_view_push(es.drop_first(), x);
        assert(es.push(x).drop_first() =~= es.drop_first().push(x));
        assert(es.push(x)[0] == es[0]);
        assert(exprs_view(es.push(x)) =~= exprs_view(es).push(expr_view(x)));
    }
}

/// Turn one source text into the sequence of statements it denotes,
/// or the first error met.  The scanner works character by character
/// on ASCII text; anything beyond ASCII is out of scope.
pub fn parse_program(src: &str) -> (r: Result<Vec<Statement>, AmpError>)
    requires
        src.is_ascii(),
    ensures
        r is Ok ==> sp_program(src@) == Ok::<Seq<StmtV>, ErrV>(stmts_view(r->Ok_0@)),
        r is Err ==> sp_program(src@) == Err::<Seq<StmtV>, ErrV>(err_view(r->Err_0)),
{
    let mut p = Parser::new(src);
    p.parse()
}

/// The one statement the canned `if`/`else` program denotes: an
/// expression statement around an `if` whose branches each return a
/// constant.
pub open spec fn if_else_example_stmts() -> Seq<StmtV> {
    seq![
        StmtV::Expression(
            Box::new(
                ExprV::If {
                    condition: Box::new(ExprV::Ident(seq!['x'])),
                    consequence: seq![
                        StmtV::Return { value: Box::new(ExprV::Const(15)) },
                    ],
                    alternative: seq![
                        StmtV::Return { value: Box::new(ExprV::Const(30)) },
                    ],
                },
            ),
        ),
    ]
}

/// The tokens of the canned `if`/`else` program, position by position.
#[verifier::rlimit(100)]
proof fn lemma_if_else_example_tokens()
    ensures
        ({
            let s = ("if (x) {\n    return 15;\n}\n    else {\n    return 30;\n    }")@;
            &&& s.len() == 57
            &&& scan(s, 0) == (TokenV::Keyword(EKeyword::If), 2int)
            &&& scan(s, 2) == (TokenV::LeftParenthesis, 4int)
            &&& scan(s, 4) == (TokenV::Identifier(seq!['x']), 5int)
            &&& scan(s, 5) == (TokenV::RightParenthesis, 6int)
            &&& scan(s, 6) == (TokenV::LeftCurlyBrace, 8int)
            &&& scan(s, 8) == (TokenV::Keyword(EKeyword::Return), 19int)
            &&& scan(s, 19) == (TokenV::Integer(15), 22int)
            &&& scan(s, 22) == (TokenV::SemiColon, 23int)
            &&& scan(s, 23) == (TokenV::RightCurlyBrace, 25int)
            &&& scan(s, 25) == (TokenV::Keyword(EKeyword::Else), 34int)
            &&& scan(s, 34) == (TokenV::LeftCurlyBrace, 36int)
            &&& scan(s, 36) == (TokenV::Keyword(EKeyword::Return), 47int)
            &&& scan(s, 47) == (TokenV::Integer(30), 50int)
            &&& scan(s, 50) == (TokenV::SemiColon, 51int)
            &&& scan(s, 51) == (TokenV::RightCurlyBrace, 57int)
            &&& scan(s, 57) == (TokenV::EOF, 57int)
        }),
{
    reveal_strlit("if (x) {\n    return 15;\n}\n    else {\n    return 30;\n    }");
    let s = ("if (x) {\n    return 15;\n}\n    else {\n    return 30;\n    }")@;
    assert(s.len() == 57);
    assert(scan(s, 0) == (TokenV::Keyword(EKeyword::If), 2int)) by {
        crate::laws::lemma_scan_on_ident(s, 0, 2);
        assert(s.subrange(0, 2) =~= seq!['i', 'f']);
    }
    assert(scan(s, 2) == (TokenV::LeftParenthesis, 4int)) by {
        reveal(crate::scan::scan);
        assert(crate::scan::skip_ws(s, 3) == 3);
        assert(crate::scan::skip_ws(s, 2) == 3);
    }
    assert(scan(s, 4) == (TokenV::Identifier(seq!['x']), 5int)) by {
        crate::laws::lemma_scan_on_ident(s, 4, 5);
        assert(s.subrange(4, 5) =~= seq!['x']);
    }
    assert(scan(s, 5) == (TokenV::RightParenthesis, 6int)) by {
        reveal(crate::scan::scan);
        assert(crate::scan::skip_ws(s, 5) == 5);
    }
    assert(scan(s, 6) == (TokenV::LeftCurlyBrace, 8int)) by {
        reveal(crate::scan::scan);
        assert(crate::scan::skip_ws(s, 7) == 7);
        assert(crate::scan::skip_ws(s, 6) == 7);
    }
    assert(scan(s, 8) == (TokenV::Keyword(EKeyword::Return), 19int)) by {
        crate::laws::lemma_scan_on_ident(s, 13, 19);
        assert(s.subrange(13, 19) =~= seq!['r', 'e', 't', 'u', 'r', 'n']);
        reveal(crate::scan::scan);
        reveal_with_fuel(crate::scan::skip_ws, 8);
        assert(crate::scan::skip_ws(s, 8) == 13);
    }
    assert(scan(s, 19) == (TokenV::Integer(15), 22int)) by {
        crate::laws::lemma_scan_on_digits(s, 20, 22);
        assert(s.subrange(20, 22) =~= seq!['1', '5']);
        reveal_with_fuel(crate::scan::dec_value, 3);
        assert(crate::scan::dec_value(seq!['1', '5']) == 15);
        reveal(crate::scan::scan);
        assert(crate::scan::skip_ws(s, 20) == 20);
        assert(crate::scan::skip_ws(s, 19) == 20);
    }
    assert(scan(s, 22) == (TokenV::SemiColon, 23int)) by {
        reveal(crate::scan::scan);
        assert(crate::scan::skip_ws(s, 22) == 22);
    }
    assert(scan(s, 23) == (TokenV::RightCurlyBrace, 25int)) by {
        reveal(crate::scan::scan);
        assert(crate::scan::skip_ws(s, 24) == 24);
        assert(crate::scan::skip_ws(s, 23) == 24);
    }
    assert(scan(s, 25) == (TokenV::Keyword(EKeyword::Else), 34int)) by {
        crate::laws::lemma_scan_on_ident(s, 30, 34);
        assert(s.subrange(30, 34) =~= seq!['e', 'l', 's', 'e']);
        reveal(crate::scan::scan);
        reveal_with_fuel(crate::scan::skip_ws, 8);
        assert(crate::scan::skip_ws(s, 25) == 30);
    }
    assert(scan(s, 34) == (TokenV::LeftCurlyBrace, 36int)) by {
        reveal(crate::scan::scan);
        assert(crate::scan::skip_ws(s, 35) == 35);
        assert(crate::scan::skip_ws(s, 34) == 35);
    }
    assert(scan(s, 36) == (TokenV::Keyword(EKeyword::Return), 47int)) by {
        crate::laws::lemma_scan_on_ident(s, 41, 47);
        assert(s.subrange(41, 47) =~= seq!['r', 'e', 't', 'u', 'r', 'n']);
        reveal(crate::scan::scan);
        reveal_with_fuel(crate::scan::skip_ws, 8);
        assert(crate::scan::skip_ws(s, 36) == 41);
    }
    assert(scan(s, 47) == (TokenV::Integer(30), 50int)) by {
        crate::laws::lemma_scan_on_digits(s, 48, 50);
        assert(s.subrange(48, 50) =~= seq!['3', '0']);
        reveal_with_fuel(crate::scan::dec_value, 3);
        assert(crate::scan::dec_value(seq!['3', '0']) == 30);
        reveal(crate::scan::scan);
        assert(crate::scan::skip_ws(s, 48) == 48);
        assert(crate::scan::skip_ws(s, 47) == 48);
    }
    assert(scan(s, 50) == (TokenV::SemiColon, 51int)) by {
        reveal(crate::scan::scan);
        assert(crate::scan::skip_ws(s, 50) == 50);
    }
    assert(scan(s, 51) == (TokenV::RightCurlyBrace, 57int)) by {
        reveal(crate::scan::scan);
        reveal_with_fuel(crate::scan::skip_ws, 8);
        assert(crate::scan::skip_ws(s, 51) == 56);
    }
    assert(scan(s, 57) == (TokenV::EOF, 57int)) by {
        reveal(crate::scan::scan);
        assert(crate::scan::skip_ws(s, 57) == 57);
    }
}

/// The canned `if`/`else` program parses to exactly the statement of
/// `if_else_example_stmts`.
#[verifier::rlimit(100)]
proof fn lemma_if_else_example()
    ensures
        sp_program(("if (x) {\n    return 15;\n}\n    else {\n    return 30;\n    }")@)
            == Ok::<Seq<StmtV>, ErrV>(if_else_example_stmts()),
{
    lemma_if_else_example_tokens();
    let s = ("if (x) {\n    return 15;\n}\n    else {\n    return 30;\n    }")@;
    lemma_scan_bounds(s, 0);
    lemma_scan_bounds(s, 2);
    lemma_scan_bounds(s, 4);
    lemma_scan_bounds(s, 5);
    lemma_scan_bounds(s, 6);
    lemma_scan_bounds(s, 8);
    lemma_scan_bounds(s, 19);
    lemma_scan_bounds(s, 22);
    lemma_scan_bounds(s, 23);
    lemma_scan_bounds(s, 25);
    lemma_scan_bounds(s, 34);
    lemma_scan_bounds(s, 36);
    lemma_scan_bounds(s, 47);
    lemma_scan_bounds(s, 50);
    lemma_scan_bounds(s, 51);

    // The condition `x`.
    let identx = ExprV::Ident(seq!['x']);
    assert(sp_primary(s, 4) == Ok::<(ExprV, int), ErrV>((identx, 5)));
    assert(step(s, 4, 5) == 5);
    assert(sp_tail(s, 5, identx, Precedence::Lowest) == Ok::<(ExprV, int), ErrV>((identx, 5)));
    assert(sp_expr(s, 4, Precedence::Lowest) == Ok::<(ExprV, int), ErrV>((identx, 5)));

    // The consequence block: `{ return 15; }`.
    let c15 = ExprV::Const(15);
    assert(sp_primary(s, 19) == Ok::<(ExprV, int), ErrV>((c15, 22)));
    assert(step(s, 19, 22) == 22);
    assert(sp_tail(s, 22, c15, Precedence::Lowest) == Ok::<(ExprV, int), ErrV>((c15, 22)));
    assert(sp_expr(s, 19, Precedence::Lowest) == Ok::<(ExprV, int), ErrV>((c15, 22)));
    let ret15 = StmtV::Return { value: Box::new(c15) };
    assert(sp_return(s, 19) == Ok::<(StmtV, int), ErrV>((ret15, 23)));
    assert(sp_stmts(s, 23) == Ok::<(Seq<StmtV>, int), ErrV>((Seq::empty(), 23)));
    assert(step(s, 8, 23) == 23);
    assert(sp_stmts(s, 8) == Ok::<(Seq<StmtV>, int), ErrV>((seq![ret15] + Seq::empty(), 23)));
    assert(seq![ret15] + Seq::<StmtV>::empty() =~= seq![ret15]);
    assert(sp_block(s, 6) == Ok::<(Seq<StmtV>, int), ErrV>((seq![ret15], 25)));

    // The alternative block: `{ return 30; }`.
    let c30 = ExprV::Const(30);
    assert(sp_primary(s, 47) == Ok::<(ExprV, int), ErrV>((c30, 50)));
    assert(step(s, 47, 50) == 50);
    assert(sp_tail(s, 50, c30, Precedence::Lowest) == Ok::<(ExprV, int), ErrV>((c30, 50)));
    assert(sp_expr(s, 47, Precedence::Lowest) == Ok::<(ExprV, int), ErrV>((c30, 50)));
    let ret30 = StmtV::Return { value: Box::new(c30) };
    assert(sp_return(s, 47) == Ok::<(StmtV, int), ErrV>((ret30, 51)));
    assert(sp_stmts(s, 51) == Ok::<(Seq<StmtV>, int), ErrV>((Seq::empty(), 51)));
    assert(step(s, 36, 51) == 51);
    assert(sp_stmts(s, 36) == Ok::<(Seq<StmtV>, int), ErrV>((seq![ret30] + Seq::empty(), 51)));
    assert(seq![ret30] + Seq::<StmtV>::empty() =~= seq![ret30]);
    assert(sp_block(s, 34) == Ok::<(Seq<StmtV>, int), ErrV>((seq![ret30], 57)));

    // The `if` expression around both blocks.
    let ifnode = ExprV::If {
        condition: Box::new(identx),
        consequence: seq![ret15],
        alternative: seq![ret30],
    };
    assert(step(s, 6, 34) == 34);
    assert(sp_if_blocks(s, 6, identx) == Ok::<(ExprV, int), ErrV>((ifnode, 57)));
    assert(step(s, 2, 6) == 6);
    assert(sp_if(s, 2) == Ok::<(ExprV, int), ErrV>((ifnode, 57)));
    assert(sp_primary(s, 0) == Ok::<(ExprV, int), ErrV>((ifnode, 57)));
    assert(step(s, 0, 57) == 57);
    assert(scan(s, 57).0 == TokenV::EOF);
    assert(sp_tail(s, 57, ifnode, Precedence::Lowest) == Ok::<(ExprV, int), ErrV>(
        (ifnode, 57),
    ));
    assert(sp_expr(s, 0, Precedence::Lowest) == Ok::<(ExprV, int), ErrV>((ifnode, 57)));

    // The whole program: that one expression statement.
    let st = StmtV::Expression(Box::new(ifnode));
    assert(sp_stmts(s, 57) == Ok::<(Seq<StmtV>, int), ErrV>((Seq::empty(), 57)));
    assert(sp_stmts(s, 0) == Ok::<(Seq<StmtV>, int), ErrV>((seq![st] + Seq::empty(), 57)));
    assert(seq![st] + Seq::<StmtV>::empty() =~= if_else_example_stmts());
}

/// Parse a small canned `if`/`else` program; the result is exactly
/// the statement of `if_else_example_stmts`.
pub fn parses_if_else() -> (r: Result<Vec<Statement>, AmpError>)
    ensures
        r is Ok,
        stmts_view(r->Ok_0@) == if_else_example_stmts(),
{
    let code = "if (x) {\n    return 15;\n}\n    else {\n    return 30;\n    }";
    proof {
        reveal_strlit("if (x) {\n    return 15;\n}\n    else {\n    return 30;\n    }");
        lemma_if_else_example();
    }
    parse_program(code)
}

/// The statements the canned `let` program denotes: three bindings,
/// of an integer and of the two booleans.
pub open spec fn let_example_stmts() -> Seq<StmtV> {
    seq![
        StmtV::Let {
            ident: TokenV::Identifier(seq!['v', 'a', 'r']),
            value: Box::new(ExprV::Const(5)),
        },
        StmtV::Let {
            ident: TokenV::Identifier(seq!['i', 's', '_', 't', 'r', 'u', 'e']),
            value: Box::new(ExprV::Boolean(true)),
        },
        StmtV::Let {
            ident: TokenV::Identifier(seq!['i', 's', '_', 'f', 'a', 'l', 's', 'e']),
            value: Box::new(ExprV::Boolean(false)),
        },
    ]
}

/// The tokens of the canned `let` program, position by position.
#[verifier::rlimit(100)]
proof fn lemma_let_example_tokens()
    ensures
        ({
            let s = ("let var = 5;\nlet is_true = true;\nlet is_false = false;")@;
            &&& s.len() == 54
            &&& scan(s, 0) == (TokenV::Keyword(EKeyword::Let), 3int)
            &&& scan(s, 3) == (TokenV::Identifier(seq!['v', 'a', 'r']), 7int)
            &&& scan(s, 7) == (TokenV::Assign, 9int)
            &&& scan(s, 9) == (TokenV::Integer(5), 11int)
            &&& scan(s, 11) == (TokenV::SemiColon, 12int)
            &&& scan(s, 12) == (TokenV::Keyword(EKeyword::Let), 16int)
            &&& scan(s, 16) == (TokenV::Identifier(seq!['i', 's', '_', 't', 'r', 'u', 'e']),
                24int,
            )
            &&& scan(s, 24) == (TokenV::Assign, 26int)
            &&& scan(s, 26) == (TokenV::Keyword(EKeyword::True), 31int)
            &&& scan(s, 31) == (TokenV::SemiColon, 32int)
            &&& scan(s, 32) == (TokenV::Keyword(EKeyword::Let), 36int)
            &&& scan(s, 36) == (TokenV::Identifier(
                seq!['i', 's', '_', 'f', 'a', 'l', 's', 'e'],
            ), 45int)
            &&& scan(s, 45) == (TokenV::Assign, 47int)
            &&& scan(s, 47) == (TokenV::Keyword(EKeyword::False), 53int)
            &&& scan(s, 53) == (TokenV::SemiColon, 54int)
            &&& scan(s, 54) == (TokenV::EOF, 54int)
        }),
{
    reveal_strlit("let var = 5;\nlet is_true = true;\nlet is_false = false;");
    let s = ("let var = 5;\nlet is_true = true;\nlet is_false = false;")@;
    assert(s.len() == 54);
    assert(scan(s, 0) == (TokenV::Keyword(EKeyword::Let), 3int)) by {
        crate::laws::lemma_scan_on_ident(s, 0, 3);
        assert(s.subrange(0, 3) =~= seq!['l', 'e', 't']);
    }
    assert(scan(s, 3) == (TokenV::Identifier(seq!['v', 'a', 'r']), 7int)) by {
        crate::laws::lemma_scan_on_ident(s, 4, 7);
        assert(s.subrange(4, 7) =~= seq!['v', 'a', 'r']);
        reveal(crate::scan::scan);
        assert(crate::scan::skip_ws(s, 4) == 4);
        assert(crate::scan::skip_ws(s, 3) == 4);
    }
    assert(scan(s, 7) == (TokenV::Assign, 9int)) by {
        reveal(crate::scan::scan);
        assert(crate::scan::skip_ws(s, 8) == 8);
        assert(crate::scan::skip_ws(s, 7) == 8);
    }
    assert(scan(s, 9) == (TokenV::Integer(5), 11int)) by {
        crate::laws::lemma_scan_on_digits(s, 10, 11);
        assert(s.subrange(10, 11) =~= seq!['5']);
        reveal_with_fuel(crate::scan::dec_value, 2);
        assert(crate::scan::dec_value(seq!['5']) == 5);
        reveal(crate::scan::scan);
        assert(crate::scan::skip_ws(s, 10) == 10);
        assert(crate::scan::skip_ws(s, 9) == 10);
    }
    assert(scan(s, 11) == (TokenV::SemiColon, 12int)) by {
        reveal(crate::scan::scan);
        assert(crate::scan::skip_ws(s, 11) == 11);
    }
    assert(scan(s, 12) == (TokenV::Keyword(EKeyword::Let), 16int)) by {
        crate::laws::lemma_scan_on_ident(s, 13, 16);
        assert(s.subrange(13, 16) =~= seq!['l', 'e', 't']);
        reveal(crate::scan::scan);
        assert(crate::scan::skip_ws(s, 13) == 13);
        assert(crate::scan::skip_ws(s, 12) == 13);
    }
    assert(scan(s, 16) == (TokenV::Identifier(seq!['i', 's', '_', 't', 'r', 'u', 'e']), 24int))
        by {
        crate::laws::lemma_scan_on_ident(s, 17, 24);
        assert(s.subrange(17, 24) =~= seq!['i', 's', '_', 't', 'r', 'u', 'e']);
        reveal(crate::scan::scan);
        assert(crate::scan::skip_ws(s, 17) == 17);
        assert(crate::scan::skip_ws(s, 16) == 17);
    }
    assert(scan(s, 24) == (TokenV::Assign, 26int)) by {
        reveal(crate::scan::scan);
        assert(crate::scan::skip_ws(s, 25) == 25);
        assert(crate::scan::skip_ws(s, 24) == 25);
    }
    assert(scan(s, 26) == (TokenV::Keyword(EKeyword::True), 31int)) by {
        crate::laws::lemma_scan_on_ident(s, 27, 31);
        assert(s.subrange(27, 31) =~= seq!['t', 'r', 'u', 'e']);
        reveal(crate::scan::scan);
        assert(crate::scan::skip_ws(s, 27) == 27);
        assert(crate::scan::skip_ws(s, 26) == 27);
    }
    assert(scan(s, 31) == (TokenV::SemiColon, 32int)) by {
        reveal(crate::scan::scan);
        assert(crate::scan::skip_ws(s, 31) == 31);
    }
    assert(scan(s, 32) == (TokenV::Keyword(EKeyword::Let), 36int)) by {
        crate::laws::lemma_scan_on_ident(s, 33, 36);
        assert(s.subrange(33, 36) =~= seq!['l', 'e', 't']);
        reveal(crate::scan::scan);
        assert(crate::scan::skip_ws(s, 33) == 33);
        assert(crate::scan::skip_ws(s, 32) == 33);
    }
    assert(scan(s, 36) == (TokenV::Identifier(seq!['i', 's', '_', 'f', 'a', 'l', 's', 'e']),
        45int,
    )) by {
        crate::laws::lemma_scan_on_ident(s, 37, 45);
        assert(s.subrange(37, 45) =~= seq!['i', 's', '_', 'f', 'a', 'l', 's', 'e']);
        reveal(crate::scan::scan);
        assert(crate::scan::skip_ws(s, 37) == 37);
        assert(crate::scan::skip_ws(s, 36) == 37);
    }
    assert(scan(s, 45) == (TokenV::Assign, 47int)) by {
        reveal(crate::scan::scan);
        assert(crate::scan::skip_ws(s, 46) == 46);
        assert(crate::scan::skip_ws(s, 45) == 46);
    }
    assert(scan(s, 47) == (TokenV::Keyword(EKeyword::False), 53int)) by {
        crate::laws::lemma_scan_on_ident(s, 48, 53);
        assert(s.subrange(48, 53) =~= seq!['f', 'a', 'l', 's', 'e']);
        reveal(crate::scan::scan);
        assert(crate::scan::skip_ws(s, 48) == 48);
        assert(crate::scan::skip_ws(s, 47) == 48);
    }
    assert(scan(s, 53) == (TokenV::SemiColon, 54int)) by {
        reveal(crate::scan::scan);
        assert(crate::scan::skip_ws(s, 53) == 53);
    }
    assert(scan(s, 54) == (TokenV::EOF, 54int)) by {
        reveal(crate::scan::scan);
        assert(crate::scan::skip_ws(s, 54) == 54);
    }
}

/// The canned `let` program parses to exactly the three statements of
/// `let_example_stmts`.
#[verifier::rlimit(100)]
proof fn lemma_let_example()
    ensures
        sp_program(("let var = 5;\nlet is_true = true;\nlet is_false = false;")@) == Ok::<
            Seq<StmtV>,
            ErrV,
        >(let_example_stmts()),
{
    lemma_let_example_tokens();
    let s = ("let var = 5;\nlet is_true = true;\nlet is_false = false;")@;
    lemma_scan_bounds(s, 0);
    lemma_scan_bounds(s, 3);
    lemma_scan_bounds(s, 7);
    lemma_scan_bounds(s, 9);
    lemma_scan_bounds(s, 11);
    lemma_scan_bounds(s, 12);
    lemma_scan_bounds(s, 16);
    lemma_scan_bounds(s, 24);
    lemma_scan_bounds(s, 26);
    lemma_scan_bounds(s, 31);
    lemma_scan_bounds(s, 32);
    lemma_scan_bounds(s, 36);
    lemma_scan_bounds(s, 45);
    lemma_scan_bounds(s, 47);
    lemma_scan_bounds(s, 53);

    // `let var = 5;`
    let c5 = ExprV::Const(5);
    assert(sp_primary(s, 9) == Ok::<(ExprV, int), ErrV>((c5, 11)));
    assert(step(s, 9, 11) == 11);
    assert(sp_tail(s, 11, c5, Precedence::Lowest) == Ok::<(ExprV, int), ErrV>((c5, 11)));
    assert(sp_expr(s, 9, Precedence::Lowest) == Ok::<(ExprV, int), ErrV>((c5, 11)));
    let st1 = StmtV::Let {
        ident: TokenV::Identifier(seq!['v', 'a', 'r']),
        value: Box::new(c5),
    };
    assert(sp_let(s, 3) == Ok::<(StmtV, int), ErrV>((st1, 12)));

    // `let is_true = true;`
    let tru = ExprV::Boolean(true);
    assert(sp_primary(s, 26) == Ok::<(ExprV, int), ErrV>((tru, 31)));
    assert(step(s, 26, 31) == 31);
    assert(sp_tail(s, 31, tru, Precedence::Lowest) == Ok::<(ExprV, int), ErrV>((tru, 31)));
    assert(sp_expr(s, 26, Precedence::Lowest) == Ok::<(ExprV, int), ErrV>((tru, 31)));
    let st2 = StmtV::Let {
        ident: TokenV::Identifier(seq!['i', 's', '_', 't', 'r', 'u', 'e']),
        value: Box::new(tru),
    };
    assert(sp_let(s, 16) == Ok::<(StmtV, int), ErrV>((st2, 32)));

    // `let is_false = false;`
    let fls = ExprV::Boolean(false);
    assert(sp_primary(s, 47) == Ok::<(ExprV, int), ErrV>((fls, 53)));
    assert(step(s, 47, 53) == 53);
    assert(sp_tail(s, 53, fls, Precedence::Lowest) == Ok::<(ExprV, int), ErrV>((fls, 53)));
    assert(sp_expr(s, 47, Precedence::Lowest) == Ok::<(ExprV, int), ErrV>((fls, 53)));
    let st3 = StmtV::Let {
        ident: TokenV::Identifier(seq!['i', 's', '_', 'f', 'a', 'l', 's', 'e']),
        value: Box::new(fls),
    };
    assert(sp_let(s, 36) == Ok::<(StmtV, int), ErrV>((st3, 54)));

    // The statement list, last to first.
    assert(sp_stmts(s, 54) == Ok::<(Seq<StmtV>, int), ErrV>((Seq::empty(), 54)));
    assert(step(s, 32, 54) == 54);
    assert(sp_stmts(s, 32) == Ok::<(Seq<StmtV>, int), ErrV>((seq![st3] + Seq::empty(), 54)));
    assert(seq![st3] + Seq::<StmtV>::empty() =~= seq![st3]);
    assert(step(s, 12, 32) == 32);
    assert(sp_stmts(s, 12) == Ok::<(Seq<StmtV>, int), ErrV>((seq![st2] + seq![st3], 54)));
    assert(step(s, 0, 12) == 12);
    assert(sp_stmts(s, 0) == Ok::<(Seq<StmtV>, int), ErrV>(
        (seq![st1] + (seq![st2] + seq![st3]), 54),
    ));
    assert(seq![st1] + (seq![st2] + seq![st3]) =~= let_example_stmts());
}

/// Parse a small canned program of three `let` statements; the result
/// is exactly the three statements of `let_example_stmts`.
pub fn parses_let_statement() -> (r: Result<Vec<Statement>, AmpError>)
    ensures
        r is Ok,
        stmts_view(r->Ok_0@) == let_example_stmts(),
{
    let code = "let var = 5;\nlet is_true = true;\nlet is_false = false;";
    proof {
        reveal_strlit("let var = 5;\nlet is_true = true;\nlet is_false = false;");
        lemma_let_example();
    }
    parse_program(code)
}

/// The statements the canned prefix-expression program denotes: a
/// negated integer constant and a negated boolean, each wrapped as an
/// expression statement.
pub open spec fn prefix_example_stmts() -> Seq<StmtV> {
    seq![
        StmtV::Expression(
            Box::new(
                ExprV::Prefix { prefix: TokenV::Minus, value: Box::new(ExprV::Const(1000)) },
            ),
        ),
        StmtV::Expression(
            Box::new(
                ExprV::Prefix { prefix: TokenV::Bang, value: Box::new(ExprV::Boolean(true)) },
            ),
        ),
    ]
}

/// The tokens of the canned prefix-expression program, position by
/// position.
#[verifier::rlimit(100)]
proof fn lemma_prefix_example_tokens()
    ensures
        ({
            let s = ("\n            -1000;\n            !true;\n            ")@;
            &&& s.len() == 51
            &&& scan(s, 0) == (TokenV::Minus, 14int)
            &&& scan(s, 14) == (TokenV::Integer(1000), 18int)
            &&& scan(s, 18) == (TokenV::SemiColon, 19int)
            &&& scan(s, 19) == (TokenV::Bang, 33int)
            &&& scan(s, 33) == (TokenV::Keyword(EKeyword::True), 37int)
            &&& scan(s, 37) == (TokenV::SemiColon, 38int)
            &&& scan(s, 38) == (TokenV::EOF, 51int)
        }),
{
    reveal_strlit("\n            -1000;\n            !true;\n            ");
    let s = ("\n            -1000;\n            !true;\n            ")@;
    assert(s.len() == 51);
    assert(scan(s, 0) == (TokenV::Minus, 14int)) by {
        reveal(crate::scan::scan);
        reveal_with_fuel(crate::scan::skip_ws, 15);
        assert(crate::scan::skip_ws(s, 0) == 13);
    }
    assert(scan(s, 14) == (TokenV::Integer(1000), 18int)) by {
        crate::laws::lemma_scan_on_digits(s, 14, 18);
        assert(s.subrange(14, 18) =~= seq!['1', '0', '0', '0']);
        reveal_with_fuel(crate::scan::dec_value, 5);
        assert(crate::scan::dec_value(seq!['1', '0', '0', '0']) == 1000);
    }
    assert(scan(s, 18) == (TokenV::SemiColon, 19int)) by {
        reveal(crate::scan::scan);
        assert(crate::scan::skip_ws(s, 18) == 18);
    }
    assert(scan(s, 19) == (TokenV::Bang, 33int)) by {
        reveal(crate::scan::scan);
        reveal_with_fuel(crate::scan::skip_ws, 15);
        assert(crate::scan::skip_ws(s, 19) == 32);
    }
    assert(scan(s, 33) == (TokenV::Keyword(EKeyword::True), 37int)) by {
        crate::laws::lemma_scan_on_ident(s, 33, 37);
        assert(s.subrange(33, 37) =~= seq!['t', 'r', 'u', 'e']);
    }
    assert(scan(s, 37) == (TokenV::SemiColon, 38int)) by {
        reveal(crate::scan::scan);
        assert(crate::scan::skip_ws(s, 37) == 37);
    }
    assert(scan(s, 38) == (TokenV::EOF, 51int)) by {
        reveal(crate::scan::scan);
        reveal_with_fuel(crate::scan::skip_ws, 15);
        assert(crate::scan::skip_ws(s, 38) == 51);
    }
}

/// The canned prefix-expression program parses to exactly the two
/// statements of `prefix_example_stmts`.
#[verifier::rlimit(100)]
proof fn lemma_prefix_example()
    ensures
        sp_program(("\n            -1000;\n            !true;\n            ")@) == Ok::<
            Seq<StmtV>,
            ErrV,
        >(prefix_example_stmts()),
{
    lemma_prefix_example_tokens();
    let s = ("\n            -1000;\n            !true;\n            ")@;
    lemma_scan_bounds(s, 0);
    lemma_scan_bounds(s, 14);
    lemma_scan_bounds(s, 18);
    lemma_scan_bounds(s, 19);
    lemma_scan_bounds(s, 33);
    lemma_scan_bounds(s, 37);

    // `-1000`: the constant, then the prefix node around it.
    let c1000 = ExprV::Const(1000);
    assert(sp_primary(s, 14) == Ok::<(ExprV, int), ErrV>((c1000, 18)));
    assert(step(s, 14, 18) == 18);
    assert(sp_tail(s, 18, c1000, Precedence::Prefix) == Ok::<(ExprV, int), ErrV>((c1000, 18)));
    assert(sp_expr(s, 14, Precedence::Prefix) == Ok::<(ExprV, int), ErrV>((c1000, 18)));
    let neg = ExprV::Prefix { prefix: TokenV::Minus, value: Box::new(c1000) };
    assert(sp_primary(s, 0) == Ok::<(ExprV, int), ErrV>((neg, 18)));
    assert(step(s, 0, 18) == 18);
    assert(sp_tail(s, 18, neg, Precedence::Lowest) == Ok::<(ExprV, int), ErrV>((neg, 18)));
    assert(sp_expr(s, 0, Precedence::Lowest) == Ok::<(ExprV, int), ErrV>((neg, 18)));

    // `!true`: the boolean, then the prefix node around it.
    let tru = ExprV::Boolean(true);
    assert(sp_primary(s, 33) == Ok::<(ExprV, int), ErrV>((tru, 37)));
    assert(step(s, 33, 37) == 37);
    assert(sp_tail(s, 37, tru, Precedence::Prefix) == Ok::<(ExprV, int), ErrV>((tru, 37)));
    assert(sp_expr(s, 33, Precedence::Prefix) == Ok::<(ExprV, int), ErrV>((tru, 37)));
    let bang = ExprV::Prefix { prefix: TokenV::Bang, value: Box::new(tru) };
    assert(sp_primary(s, 19) == Ok::<(ExprV, int), ErrV>((bang, 37)));
    assert(step(s, 19, 37) == 37);
    assert(sp_tail(s, 37, bang, Precedence::Lowest) == Ok::<(ExprV, int), ErrV>((bang, 37)));
    assert(sp_expr(s, 19, Precedence::Lowest) == Ok::<(ExprV, int), ErrV>((bang, 37)));

    // The statement list: each expression statement, the semicolons
    // between them, and the end of the input.
    let st1 = StmtV::Expression(Box::new(neg));
    let st2 = StmtV::Expression(Box::new(bang));
    assert(sp_stmts(s, 38) == Ok::<(Seq<StmtV>, int), ErrV>((Seq::empty(), 38)));
    assert(sp_stmts(s, 37) == Ok::<(Seq<StmtV>, int), ErrV>((Seq::empty(), 38)));
    assert(step(s, 19, 37) == 37);
    assert(sp_stmts(s, 19) == Ok::<(Seq<StmtV>, int), ErrV>((seq![st2] + Seq::empty(), 38)));
    assert(seq![st2] + Seq::<StmtV>::empty() =~= seq![st2]);
    assert(sp_stmts(s, 18) == Ok::<(Seq<StmtV>, int), ErrV>((seq![st2], 38)));
    assert(step(s, 0, 18) == 18);
    assert(sp_stmts(s, 0) == Ok::<(Seq<StmtV>, int), ErrV>((seq![st1] + seq![st2], 38)));
    assert(seq![st1] + seq![st2] =~= prefix_example_stmts());
}

/// Parse a small canned program of two prefix expressions; the result
/// is exactly the two statements of `prefix_example_stmts`.
pub fn parses_prefix_expression() -> (r: Result<Vec<Statement>, AmpError>)
    ensures
        r is Ok,
        stmts_view(r->Ok_0@) == prefix_example_stmts(),
{
    let code = "\n            -1000;\n            !true;\n            ";
    proof {
        reveal_strlit("\n            -1000;\n            !true;\n            ");
        lemma_prefix_example();
    }
    parse_program(code)
}

} // verus!

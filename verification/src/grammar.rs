use vstd::prelude::*;

verus! {

use crate::ast::{
    EKeyword, ExprV, Precedence, StmtV, TokenV, prec_val, spec_literal, token_prec,
};
use crate::ErrV;
use crate::scan::{lemma_scan_bounds, nxt, step, tok};

// The grammar, as a family of mutually recursive specification
// functions over the source text.  Each function takes the position of
// the first token of its clause and returns the parsed node together
// with the position just past the clause, or the first error met.
//
// Positions advance through `nxt` (past the token at a position) and
// `step` (to the position a sub-clause ended at), both of which stay
// within the text by construction; `lemma_scan_bounds` shows that they
// agree with the scanner whenever the parse is under way, so the
// clamping never actually happens.  Termination is by the distance to
// the end of the text, with a constant tie-breaker for the calls that
// stay in place.

/// A sequence of statements, up to the end of the input, a `}` closing
/// an enclosing block, or an `else` that ends an `if` consequence; the
/// closing token is left unconsumed.  Stray semicolons between
/// statements are skipped.
pub open spec fn sp_stmts(s: Seq<char>, i: int) -> Result<(Seq<StmtV>, int), ErrV>
    decreases s.len() - i, 4int,
        when 0 <= i <= s.len()
        via sp_stmts_dec
{
    match tok(s, i) {
        TokenV::EOF => Ok((Seq::empty(), i)),
        TokenV::RightCurlyBrace => Ok((Seq::empty(), i)),
        TokenV::Keyword(EKeyword::Else) => Ok((Seq::empty(), i)),
        TokenV::SemiColon => sp_stmts(s, nxt(s, i)),
        TokenV::Invalid(c) => Err(ErrV::InvalidCharacter(c)),
        TokenV::Overflow => Err(ErrV::IntegerOverflow),
        TokenV::Keyword(EKeyword::Let) => match sp_let(s, nxt(s, i)) {
            Ok((st, j)) => match sp_stmts(s, step(s, i, j)) {
                Ok((rest, k)) => Ok((seq![st] + rest, k)),
                Err(e) => Err(e),
            },
            Err(e) => Err(e),
        },
        TokenV::Keyword(EKeyword::Return) => match sp_return(s, nxt(s, i)) {
            Ok((st, j)) => match sp_stmts(s, step(s, i, j)) {
                Ok((rest, k)) => Ok((seq![st] + rest, k)),
                Err(e) => Err(e),
            },
            Err(e) => Err(e),
        },
        _ => match sp_expr(s, i, Precedence::Lowest) {
            Ok((e, j)) => match sp_stmts(s, step(s, i, j)) {
                Ok((rest, k)) => Ok((seq![StmtV::Expression(Box::new(e))] + rest, k)),
                Err(er) => Err(er),
            },
            Err(er) => Err(er),
        },
    }
}

#[via_fn]
proof fn sp_stmts_dec(s: Seq<char>, i: int) {
    lemma_scan_bounds(s, i);
}

/// The rest of a `let` statement: `IDENT = EXPR ;`, entered just past
/// the `let` keyword.
pub open spec fn sp_let(s: Seq<char>, i: int) -> Result<(StmtV, int), ErrV>
    decreases s.len() - i, 2int,
        when 0 <= i <= s.len()
        via sp_let_dec
{
    match tok(s, i) {
        TokenV::Identifier(name) => {
            let i1 = nxt(s, i);
            if tok(s, i1) == TokenV::Assign {
                match sp_expr(s, nxt(s, i1), Precedence::Lowest) {
                    Ok((e, j)) => {
                        if tok(s, j) == TokenV::SemiColon {
                            Ok(
                                (
                                    StmtV::Let {
                                        ident: TokenV::Identifier(name),
                                        value: Box::new(e),
                                    },
                                    nxt(s, j),
                                ),
                            )
                        } else {
                            Err(ErrV::InvalidToken(tok(s, j), TokenV::SemiColon))
                        }
                    },
                    Err(e) => Err(e),
                }
            } else {
                Err(ErrV::InvalidToken(tok(s, i1), TokenV::Assign))
            }
        },
        t => Err(ErrV::InvalidToken(t, TokenV::Identifier(Seq::empty()))),
    }
}

#[via_fn]
proof fn sp_let_dec(s: Seq<char>, i: int) {
    lemma_scan_bounds(s, i);
    lemma_scan_bounds(s, nxt(s, i));
}

/// The rest of a `return` statement: `EXPR ;`, entered just past the
/// `return` keyword.
pub open spec fn sp_return(s: Seq<char>, i: int) -> Result<(StmtV, int), ErrV>
    decreases s.len() - i, 2int,
        when 0 <= i <= s.len()
{
    match sp_expr(s, i, Precedence::Lowest) {
        Ok((e, j)) => {
            if tok(s, j) == TokenV::SemiColon {
                Ok((StmtV::Return { value: Box::new(e) }, nxt(s, j)))
            } else {
                Err(ErrV::InvalidToken(tok(s, j), TokenV::SemiColon))
            }
        },
        Err(e) => Err(e),
    }
}

/// An expression: a primary term, then every binary operator, and
/// every call-argument list, that binds more tightly than `p`.
pub open spec fn sp_expr(s: Seq<char>, i: int, p: Precedence) -> Result<(ExprV, int), ErrV>
    decreases s.len() - i, 1int,
        when 0 <= i <= s.len()
{
    match sp_primary(s, i) {
        Ok((e, j)) => sp_tail(s, step(s, i, j), e, p),
        Err(e) => Err(e),
    }
}

/// A primary term: an integer, boolean or identifier, a prefix
/// operator applied to a term, a parenthesized expression, an `if`
/// expression, or a function literal.  Any other token is a failure:
/// an invalid character and an overflowed integer literal surface as
/// their own errors, the rest as a missing expression.
pub open spec fn sp_primary(s: Seq<char>, i: int) -> Result<(ExprV, int), ErrV>
    decreases s.len() - i, 0int,
        when 0 <= i <= s.len()
        via sp_primary_dec
{
    let t = tok(s, i);
    let j = nxt(s, i);
    match t {
        TokenV::Integer(n) => Ok((ExprV::Const(n), j)),
        TokenV::Keyword(EKeyword::True) => Ok((ExprV::Boolean(true), j)),
        TokenV::Keyword(EKeyword::False) => Ok((ExprV::Boolean(false), j)),
        TokenV::Identifier(name) => Ok((ExprV::Ident(name), j)),
        TokenV::Bang => match sp_expr(s, j, Precedence::Prefix) {
            Ok((v, k)) => Ok((ExprV::Prefix { prefix: t, value: Box::new(v) }, k)),
            Err(e) => Err(e),
        },
        TokenV::Minus => match sp_expr(s, j, Precedence::Prefix) {
            Ok((v, k)) => Ok((ExprV::Prefix { prefix: t, value: Box::new(v) }, k)),
            Err(e) => Err(e),
        },
        TokenV::LeftParenthesis => match sp_expr(s, j, Precedence::Lowest) {
            Ok((v, k)) => {
                if tok(s, k) == TokenV::RightParenthesis {
                    Ok((v, nxt(s, k)))
                } else {
                    Err(ErrV::InvalidToken(tok(s, k), TokenV::RightParenthesis))
                }
            },
            Err(e) => Err(e),
        },
        TokenV::Keyword(EKeyword::If) => sp_if(s, j),
        TokenV::Keyword(EKeyword::Function) => sp_fnlit(s, j),
        TokenV::Invalid(c) => Err(ErrV::InvalidCharacter(c)),
        TokenV::Overflow => Err(ErrV::IntegerOverflow),
        _ => Err(ErrV::MissingExpression(spec_literal(t))),
    }
}

#[via_fn]
proof fn sp_primary_dec(s: Seq<char>, i: int) {
    lemma_scan_bounds(s, i);
}

/// Every binary operator whose precedence strictly exceeds `p`, and
/// every call-argument list, folded onto `left`; function application
/// binds more tightly than every operator.
pub open spec fn sp_tail(s: Seq<char>, i: int, left: ExprV, p: Precedence) -> Result<
    (ExprV, int),
    ErrV,
>
    decreases s.len() - i, 0int,
        when 0 <= i <= s.len()
        via sp_tail_dec
{
    let t = tok(s, i);
    if t == TokenV::LeftParenthesis {
        match sp_args(s, nxt(s, i)) {
            Ok((args, j)) => sp_tail(
                s,
                step(s, i, j),
                ExprV::Call { function: Box::new(left), arguments: args },
                p,
            ),
            Err(e) => Err(e),
        }
    } else if prec_val(token_prec(t)) > prec_val(p) {
        match sp_expr(s, nxt(s, i), token_prec(t)) {
            Ok((r, j)) => sp_tail(
                s,
                step(s, i, j),
                ExprV::Infix { left: Box::new(left), operator: t, right: Box::new(r) },
                p,
            ),
            Err(e) => Err(e),
        }
    } else {
        Ok((left, i))
    }
}

#[via_fn]
proof fn sp_tail_dec(s: Seq<char>, i: int, left: ExprV, p: Precedence) {
    lemma_scan_bounds(s, i);
}

/// The rest of an `if` expression: `( EXPR ) { BLOCK }`, then an
/// optional `else { BLOCK }`; a missing `else` yields an empty
/// alternative.  Entered just past the `if` keyword.
pub open spec fn sp_if(s: Seq<char>, i: int) -> Result<(ExprV, int), ErrV>
    decreases s.len() - i, 2int,
        when 0 <= i <= s.len()
        via sp_if_dec
{
    if tok(s, i) != TokenV::LeftParenthesis {
        Err(ErrV::InvalidToken(tok(s, i), TokenV::LeftParenthesis))
    } else {
        match sp_expr(s, nxt(s, i), Precedence::Lowest) {
            Ok((cond, j)) => {
                if tok(s, j) != TokenV::RightParenthesis {
                    Err(ErrV::InvalidToken(tok(s, j), TokenV::RightParenthesis))
                } else {
                    sp_if_blocks(s, step(s, i, nxt(s, j)), cond)
                }
            },
            Err(e) => Err(e),
        }
    }
}

#[via_fn]
proof fn sp_if_dec(s: Seq<char>, i: int) {
    lemma_scan_bounds(s, i);
}

/// The blocks of an `if` expression, entered on the `{` that opens the
/// consequence: the consequence block, then an optional `else` block.
pub open spec fn sp_if_blocks(s: Seq<char>, i: int, cond: ExprV) -> Result<(ExprV, int), ErrV>
    decreases s.len() - i, 3int,
        when 0 <= i <= s.len()
        via sp_if_blocks_dec
{
    match sp_block(s, i) {
        Ok((cons, k)) => {
            if tok(s, k) == TokenV::Keyword(EKeyword::Else) {
                match sp_block(s, step(s, i, nxt(s, k))) {
                    Ok((alt, m)) => Ok(
                        (
                            ExprV::If {
                                condition: Box::new(cond),
                                consequence: cons,
                                alternative: alt,
                            },
                            m,
                        ),
                    ),
                    Err(e) => Err(e),
                }
            } else {
                Ok(
                    (
                        ExprV::If {
                            condition: Box::new(cond),
                            consequence: cons,
                            alternative: Seq::empty(),
                        },
                        k,
                    ),
                )
            }
        },
        Err(e) => Err(e),
    }
}

#[via_fn]
proof fn sp_if_blocks_dec(s: Seq<char>, i: int, cond: ExprV) {
    lemma_scan_bounds(s, i);
}

/// A brace-delimited block: `{ STATEMENTS }`.
pub open spec fn sp_block(s: Seq<char>, i: int) -> Result<(Seq<StmtV>, int), ErrV>
    decreases s.len() - i, 2int,
        when 0 <= i <= s.len()
        via sp_block_dec
{
    if tok(s, i) != TokenV::LeftCurlyBrace {
        Err(ErrV::InvalidToken(tok(s, i), TokenV::LeftCurlyBrace))
    } else {
        match sp_stmts(s, nxt(s, i)) {
            Ok((ss, j)) => {
                if tok(s, j) == TokenV::RightCurlyBrace {
                    Ok((ss, nxt(s, j)))
                } else {
                    Err(ErrV::InvalidToken(tok(s, j), TokenV::RightCurlyBrace))
                }
            },
            Err(e) => Err(e),
        }
    }
}

#[via_fn]
proof fn sp_block_dec(s: Seq<char>, i: int) {
    lemma_scan_bounds(s, i);
}

/// The rest of a function literal: `( PARAM, ... ) { BLOCK }`, entered
/// just past the `fn` keyword.
pub open spec fn sp_fnlit(s: Seq<char>, i: int) -> Result<(ExprV, int), ErrV>
    decreases s.len() - i, 2int,
        when 0 <= i <= s.len()
        via sp_fnlit_dec
{
    if tok(s, i) != TokenV::LeftParenthesis {
        Err(ErrV::InvalidToken(tok(s, i), TokenV::LeftParenthesis))
    } else {
        match sp_params(s, nxt(s, i)) {
            Ok((ps, j)) => match sp_block(s, step(s, i, j)) {
                Ok((body, k)) => Ok((ExprV::Function { parameters: ps, body }, k)),
                Err(e) => Err(e),
            },
            Err(e) => Err(e),
        }
    }
}

#[via_fn]
proof fn sp_fnlit_dec(s: Seq<char>, i: int) {
    lemma_scan_bounds(s, i);
}

/// A possibly empty, comma-separated list of bare identifiers,
/// terminated by `)`; the `)` is consumed.
pub open spec fn sp_params(s: Seq<char>, i: int) -> Result<(Seq<Seq<char>>, int), ErrV>
    decreases s.len() - i, 2int,
        when 0 <= i <= s.len()
        via sp_params_dec
{
    match tok(s, i) {
        TokenV::RightParenthesis => Ok((Seq::empty(), nxt(s, i))),
        TokenV::Identifier(name) => sp_params_more(s, nxt(s, i), seq![name]),
        t => Err(ErrV::InvalidToken(t, TokenV::Identifier(Seq::empty()))),
    }
}

#[via_fn]
proof fn sp_params_dec(s: Seq<char>, i: int) {
    lemma_scan_bounds(s, i);
}

/// The rest of a parameter list after at least one identifier: either
/// `)` ending it, or `, IDENT` continuing it.
pub open spec fn sp_params_more(s: Seq<char>, i: int, acc: Seq<Seq<char>>) -> Result<
    (Seq<Seq<char>>, int),
    ErrV,
>
    decreases s.len() - i, 2int,
        when 0 <= i <= s.len()
        via sp_params_more_dec
{
    match tok(s, i) {
        TokenV::RightParenthesis => Ok((acc, nxt(s, i))),
        TokenV::Comma => {
            let i1 = nxt(s, i);
            match tok(s, i1) {
                TokenV::Identifier(name) => sp_params_more(s, nxt(s, i1), acc.push(name)),
                t => Err(ErrV::InvalidToken(t, TokenV::Identifier(Seq::empty()))),
            }
        },
        t => Err(ErrV::InvalidToken(t, TokenV::RightParenthesis)),
    }
}

#[via_fn]
proof fn sp_params_more_dec(s: Seq<char>, i: int, acc: Seq<Seq<char>>) {
    lemma_scan_bounds(s, i);
    lemma_scan_bounds(s, nxt(s, i));
}

/// A possibly empty, comma-separated list of argument expressions,
/// terminated by `)`; the `)` is consumed.
pub open spec fn sp_args(s: Seq<char>, i: int) -> Result<(Seq<ExprV>, int), ErrV>
    decreases s.len() - i, 3int,
        when 0 <= i <= s.len()
{
    match tok(s, i) {
        TokenV::RightParenthesis => Ok((Seq::empty(), nxt(s, i))),
        _ => match sp_expr(s, i, Precedence::Lowest) {
            Ok((e, j)) => sp_args_more(s, step(s, i, j), seq![e]),
            Err(e) => Err(e),
        },
    }
}

/// The rest of an argument list after at least one expression: either
/// `)` ending it, or `, EXPR` continuing it.
pub open spec fn sp_args_more(s: Seq<char>, i: int, acc: Seq<ExprV>) -> Result<
    (Seq<ExprV>, int),
    ErrV,
>
    decreases s.len() - i, 2int,
        when 0 <= i <= s.len()
        via sp_args_more_dec
{
    match tok(s, i) {
        TokenV::RightParenthesis => Ok((acc, nxt(s, i))),
        TokenV::Comma => match sp_expr(s, nxt(s, i), Precedence::Lowest) {
            Ok((e, j)) => sp_args_more(s, step(s, i, j), acc.push(e)),
            Err(e) => Err(e),
        },
        t => Err(ErrV::InvalidToken(t, TokenV::RightParenthesis)),
    }
}

#[via_fn]
proof fn sp_args_more_dec(s: Seq<char>, i: int, acc: Seq<ExprV>) {
    lemma_scan_bounds(s, i);
}

/// A whole program: the statements of the text, taken from its start.
pub open spec fn sp_program(s: Seq<char>) -> Result<Seq<StmtV>, ErrV> {
    match sp_stmts(s, 0) {
        Ok((ss, _)) => Ok(ss),
        Err(e) => Err(e),
    }
}

} // verus!

use vstd::prelude::*;

verus! {

use crate::ast::{EKeyword, ExprV, Precedence, StmtV, TokenV};
use crate::ErrV;
use crate::grammar::{sp_expr, sp_let, sp_primary, sp_stmts, sp_tail};
use crate::scan::{
    dec_value, digits_end, ident_end, is_digit, is_ident_char, is_ws, kw_of, nxt, scan, skip_ws,
    step,
};

// Laws of the scanner and the parser that hold for every input, not
// just for the inputs the tests try.

/// A run of identifier characters ends exactly where the first
/// non-identifier character stands (or where the text ends).
proof fn lemma_ident_run(s: Seq<char>, a: int, b: int)
    requires
        0 <= a <= b <= s.len(),
        forall|k: int| a <= k < b ==> is_ident_char(#[trigger] s[k]),
        b == s.len() || !is_ident_char(s[b]),
    ensures
        ident_end(s, a) == b,
    decreases b - a,
{
    if a < b {
        lemma_ident_run(s, a + 1, b);
    }
}

/// A run of digits ends exactly where the first non-digit stands (or
/// where the text ends).
proof fn lemma_digit_run(s: Seq<char>, a: int, b: int)
    requires
        0 <= a <= b <= s.len(),
        forall|k: int| a <= k < b ==> is_digit(#[trigger] s[k]),
        b == s.len() || !is_digit(s[b]),
    ensures
        digits_end(s, a) == b,
    decreases b - a,
{
    if a < b {
        lemma_digit_run(s, a + 1, b);
    }
}

/// The two-character sequence `==` never scans as two `=` tokens: the
/// scanner standing on the first `=` emits one `Equal` token and
/// consumes both characters.
pub proof fn lemma_double_equals_is_one_token(s: Seq<char>, i: int)
    requires
        0 <= i,
        i + 1 < s.len(),
        s[i] == '=',
        s[i + 1] == '=',
    ensures
        scan(s, i) == (TokenV::Equal, i + 2),
{
    reveal(crate::scan::scan);
    assert(skip_ws(s, i) == i);
}

/// `!` not followed by `=` scans as a standalone `!` token consuming
/// one character.
pub proof fn lemma_bang_alone(s: Seq<char>, i: int)
    requires
        0 <= i < s.len(),
        s[i] == '!',
        i + 1 < s.len() ==> s[i + 1] != '=',
    ensures
        scan(s, i) == (TokenV::Bang, i + 1),
{
    reveal(crate::scan::scan);
    assert(skip_ws(s, i) == i);
}

/// Standing on an identifier character whose run reaches `b`, the
/// scanner emits the keyword or identifier of that run and stops at
/// `b`.
pub(crate) proof fn lemma_scan_on_ident(s: Seq<char>, j: int, b: int)
    requires
        0 <= j < b <= s.len(),
        forall|k: int| j <= k < b ==> is_ident_char(#[trigger] s[k]),
        b == s.len() || !is_ident_char(s[b]),
    ensures
        scan(s, j) == (
            match kw_of(s.subrange(j, b)) {
                Some(kw) => TokenV::Keyword(kw),
                None => TokenV::Identifier(s.subrange(j, b)),
            },
            b,
        ),
{
    reveal(crate::scan::scan);
    assert(is_ident_char(s[j]));
    assert(skip_ws(s, j) == j);
    lemma_ident_run(s, j, b);
}

/// Standing on a digit whose run reaches `b`, the scanner emits the
/// integer literal of that run (or the overflow marker) and stops at
/// `b`.
pub(crate) proof fn lemma_scan_on_digits(s: Seq<char>, j: int, b: int)
    requires
        0 <= j < b <= s.len(),
        forall|k: int| j <= k < b ==> is_digit(#[trigger] s[k]),
        b == s.len() || !is_digit(s[b]),
    ensures
        scan(s, j) == (
            if dec_value(s.subrange(j, b)) <= u64::MAX as int {
                TokenV::Integer(dec_value(s.subrange(j, b)) as u64)
            } else {
                TokenV::Overflow
            },
            b,
        ),
{
    reveal(crate::scan::scan);
    assert(is_digit(s[j]));
    assert(skip_ws(s, j) == j);
    lemma_digit_run(s, j, b);
}

/// A text whose tokens are exactly `let IDENT = INTEGER ;` parses to
/// the one `Let` statement of that name and value, ending where the
/// end of the input begins.
proof fn lemma_let_statement_of_tokens(
    s: Seq<char>,
    name: Seq<char>,
    v: u64,
    a0: int,
    a1: int,
    a2: int,
    a3: int,
    a4: int,
    a5: int,
)
    requires
        0 <= a0 <= s.len(),
        scan(s, a0) == (TokenV::Keyword(EKeyword::Let), a1),
        scan(s, a1) == (TokenV::Identifier(name), a2),
        scan(s, a2) == (TokenV::Assign, a3),
        scan(s, a3) == (TokenV::Integer(v), a4),
        scan(s, a4) == (TokenV::SemiColon, a5),
        scan(s, a5).0 == TokenV::EOF,
    ensures
        sp_stmts(s, a0) == Ok::<(Seq<StmtV>, int), ErrV>(
            (
                seq![
                    StmtV::Let {
                        ident: TokenV::Identifier(name),
                        value: Box::new(ExprV::Const(v)),
                    },
                ],
                a5,
            ),
        ),
{
    crate::scan::lemma_scan_bounds(s, a0);
    crate::scan::lemma_scan_bounds(s, a1);
    crate::scan::lemma_scan_bounds(s, a2);
    crate::scan::lemma_scan_bounds(s, a3);
    crate::scan::lemma_scan_bounds(s, a4);
    crate::scan::lemma_scan_bounds(s, a5);
    assert(nxt(s, a0) == a1);
    assert(nxt(s, a1) == a2);
    assert(nxt(s, a2) == a3);
    assert(nxt(s, a3) == a4);
    assert(nxt(s, a4) == a5);
    assert(sp_primary(s, a3) == Ok::<(ExprV, int), ErrV>((ExprV::Const(v), a4)));
    assert(step(s, a3, a4) == a4);
    assert(sp_tail(s, a4, ExprV::Const(v), Precedence::Lowest) == Ok::<(ExprV, int), ErrV>(
        (ExprV::Const(v), a4),
    ));
    assert(sp_expr(s, a3, Precedence::Lowest) == Ok::<(ExprV, int), ErrV>(
        (ExprV::Const(v), a4),
    ));
    let stmt = StmtV::Let { ident: TokenV::Identifier(name), value: Box::new(ExprV::Const(v)) };
    assert(sp_let(s, a1) == Ok::<(StmtV, int), ErrV>((stmt, a5)));
    assert(sp_stmts(s, a5) == Ok::<(Seq<StmtV>, int), ErrV>((Seq::empty(), a5)));
    assert(step(s, a0, a5) == a5);
    assert(seq![stmt] + Seq::<StmtV>::empty() =~= seq![stmt]);
    assert(sp_stmts(s, a0) == Ok::<(Seq<StmtV>, int), ErrV>((seq![stmt], a5)));
}

/// Round-trip shape of a `let` statement: for every valid identifier
/// (a nonempty run of identifier characters that is not a keyword) and
/// every digit run whose value fits an unsigned 64-bit integer, the
/// text `let NAME = DIGITS;` parses to exactly one `Let` statement
/// binding that name to that integer constant.
#[verifier::rlimit(100)]
pub proof fn lemma_let_round_trip(name: Seq<char>, digits: Seq<char>)
    requires
        name.len() > 0,
        forall|k: int| 0 <= k < name.len() ==> is_ident_char(#[trigger] name[k]),
        kw_of(name) is None,
        digits.len() > 0,
        forall|k: int| 0 <= k < digits.len() ==> is_digit(#[trigger] digits[k]),
        dec_value(digits) <= u64::MAX as int,
    ensures
        ({
            let s = seq!['l', 'e', 't', ' '] + name + seq![' ', '=', ' '] + digits + seq![';'];
            sp_stmts(s, 0) == Ok::<(Seq<StmtV>, int), ErrV>(
                (
                    seq![
                        StmtV::Let {
                            ident: TokenV::Identifier(name),
                            value: Box::new(ExprV::Const(dec_value(digits) as u64)),
                        },
                    ],
                    s.len() as int,
                ),
            )
        }),
{
    let n = name.len() as int;
    let d = digits.len() as int;
    let s = seq!['l', 'e', 't', ' '] + name + seq![' ', '=', ' '] + digits + seq![';'];
    assert(s.len() == n + d + 8);
    assert(s[0] == 'l');
    assert(s[1] == 'e');
    assert(s[2] == 't');
    assert(s[3] == ' ');
    assert(forall|k: int| 4 <= k < 4 + n ==> s[k] == name[k - 4]);
    assert(s[4 + n] == ' ');
    assert(s[5 + n] == '=');
    assert(s[6 + n] == ' ');
    assert(forall|k: int| 7 + n <= k < 7 + n + d ==> s[k] == digits[k - 7 - n]);
    assert(s[7 + n + d] == ';');
    assert(forall|k: int| 0 <= k < n ==> !is_ws(#[trigger] name[k]) && !is_digit(name[k]));
    assert(forall|k: int| 0 <= k < d ==> !is_ws(#[trigger] digits[k]) && !is_ident_char(
        digits[k],
    ));

    // The `let` keyword at position 0.
    lemma_scan_on_ident(s, 0, 3);
    assert(s.subrange(0, 3) =~= seq!['l', 'e', 't']);
    assert(scan(s, 0) == (TokenV::Keyword(EKeyword::Let), 3int));
    assert(nxt(s, 0) == 3);

    // The identifier at position 4, after one space.
    lemma_scan_on_ident(s, 4, 4 + n);
    assert(s.subrange(4, 4 + n) =~= name);
    assert(scan(s, 4) == (TokenV::Identifier(name), 4 + n));
    assert(scan(s, 3) == scan(s, 4)) by {
        reveal(crate::scan::scan);
        assert(skip_ws(s, 3) == skip_ws(s, 4));
        assert(skip_ws(s, 4) == 4);
    }
    assert(nxt(s, 3) == 4 + n);

    // The `=` at position 5 + n, after one space.
    assert(scan(s, 4 + n) == (TokenV::Assign, 6 + n)) by {
        reveal(crate::scan::scan);
        assert(skip_ws(s, 5 + n) == 5 + n);
        assert(skip_ws(s, 4 + n) == 5 + n);
        assert(s[5 + n + 1] == ' ');
    }
    assert(nxt(s, 4 + n) == 6 + n);

    // The integer literal at position 7 + n, after one space.
    lemma_scan_on_digits(s, 7 + n, 7 + n + d);
    assert(s.subrange(7 + n, 7 + n + d) =~= digits);
    let v = dec_value(digits);
    assert(scan(s, 7 + n) == (TokenV::Integer(v as u64), 7 + n + d));
    assert(scan(s, 6 + n) == scan(s, 7 + n)) by {
        reveal(crate::scan::scan);
        assert(skip_ws(s, 7 + n) == 7 + n);
        assert(skip_ws(s, 6 + n) == 7 + n);
    }
    assert(nxt(s, 6 + n) == 7 + n + d);

    // The `;` and, past it, the end of the text.
    assert(scan(s, 7 + n + d) == (TokenV::SemiColon, 8 + n + d)) by {
        reveal(crate::scan::scan);
        assert(skip_ws(s, 7 + n + d) == 7 + n + d);
    }
    assert(nxt(s, 7 + n + d) == 8 + n + d);
    assert(scan(s, 8 + n + d) == (TokenV::EOF, 8 + n + d)) by {
        reveal(crate::scan::scan);
        assert(skip_ws(s, 8 + n + d) == 8 + n + d);
    }

    // The token stream is exactly `let IDENT = INTEGER ;` followed by
    // the end of the input, so the statement parser yields the one
    // `Let` statement.
    lemma_let_statement_of_tokens(s, name, v as u64, 0, 3, 4 + n, 6 + n, 7 + n + d, 8 + n + d);
}

} // verus!

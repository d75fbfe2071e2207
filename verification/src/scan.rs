use vstd::prelude::*;

verus! {

use crate::ast::{EKeyword, TokenV, single_token};

/// ASCII whitespace: space, tab, line feed, form feed, carriage return.
pub open spec fn is_ws(c: char) -> bool {
    c == ' ' || c == '\t' || c == '\n' || c == '\u{c}' || c == '\r'
}

/// ASCII decimal digit.
pub open spec fn is_digit(c: char) -> bool {
    '0' <= c && c <= '9'
}

/// ASCII letter.
pub open spec fn is_letter(c: char) -> bool {
    ('a' <= c && c <= 'z') || ('A' <= c && c <= 'Z')
}

/// Character that may appear in an identifier: a letter or an underscore.
/// Digits are deliberately excluded.
pub open spec fn is_ident_char(c: char) -> bool {
    is_letter(c) || c == '_'
}

/// First position at or after `i` that does not hold whitespace.
pub open spec fn skip_ws(s: Seq<char>, i: int) -> int
    decreases s.len() - i,
{
    if 0 <= i && i < s.len() && is_ws(s[i]) {
        skip_ws(s, i + 1)
    } else {
        i
    }
}

/// First position at or after `i` that does not hold a digit.
pub open spec fn digits_end(s: Seq<char>, i: int) -> int
    decreases s.len() - i,
{
    if 0 <= i && i < s.len() && is_digit(s[i]) {
        digits_end(s, i + 1)
    } else {
        i
    }
}

/// First position at or after `i` that does not hold an identifier character.
pub open spec fn ident_end(s: Seq<char>, i: int) -> int
    decreases s.len() - i,
{
    if 0 <= i && i < s.len() && is_ident_char(s[i]) {
        ident_end(s, i + 1)
    } else {
        i
    }
}

/// Value of a run of decimal digit characters.
pub open spec fn dec_value(ds: Seq<char>) -> int
    decreases ds.len(),
{
    if ds.len() == 0 {
        0
    } else {
        dec_value(ds.drop_last()) * 10 + (ds.last() as int - '0' as int)
    }
}

/// The keyword a piece of text denotes, if any.
pub open spec fn kw_of(cs: Seq<char>) -> Option<EKeyword> {
    if cs == seq!['f', 'n'] {
        Some(EKeyword::Function)
    } else if cs == seq!['l', 'e', 't'] {
        Some(EKeyword::Let)
    } else if cs == seq!['i', 'f'] {
        Some(EKeyword::If)
    } else if cs == seq!['e', 'l', 's', 'e'] {
        Some(EKeyword::Else)
    } else if cs == seq!['t', 'r', 'u', 'e'] {
        Some(EKeyword::True)
    } else if cs == seq!['f', 'a', 'l', 's', 'e'] {
        Some(EKeyword::False)
    } else if cs == seq!['r', 'e', 't', 'u', 'r', 'n'] {
        Some(EKeyword::Return)
    } else {
        None
    }
}

/// One- or two-character operator: the two-character form when the
/// character after `j` is `second`, the one-character form otherwise.
pub open spec fn probe_second(
    s: Seq<char>,
    j: int,
    second: char,
    double: TokenV,
    single: TokenV,
) -> (TokenV, int) {
    if j + 1 < s.len() && s[j + 1] == second {
        (double, j + 2)
    } else {
        (single, j + 1)
    }
}

/// The token that starts at position `i` of the text, after leading
/// whitespace, together with the position just past it.  At the end of
/// the text the token is `EOF` and the position is the text's length.
/// Opaque: the scanner's own proofs reveal it; the parser's proofs
/// only need `lemma_scan_bounds` and the scanner's contracts.
#[verifier::opaque]
pub open spec fn scan(s: Seq<char>, i: int) -> (TokenV, int) {
    let j = skip_ws(s, i);
    if j >= s.len() {
        (TokenV::EOF, s.len() as int)
    } else {
        let c = s[j];
        if c == '!' {
            probe_second(s, j, '=', TokenV::NotEqual, TokenV::Bang)
        } else if c == '<' {
            probe_second(s, j, '=', TokenV::LessThanOrEqual, TokenV::LessThan)
        } else if c == '>' {
            probe_second(s, j, '=', TokenV::GreaterThanOrEqual, TokenV::GreaterThan)
        } else if c == '=' {
            probe_second(s, j, '=', TokenV::Equal, TokenV::Assign)
        } else if single_token(c) is Some {
            (single_token(c)->Some_0, j + 1)
        } else if is_digit(c) {
            let k = digits_end(s, j);
            let v = dec_value(s.subrange(j, k));
            if v <= u64::MAX as int {
                (TokenV::Integer(v as u64), k)
            } else {
                (TokenV::Overflow, k)
            }
        } else if is_ident_char(c) {
            let k = ident_end(s, j);
            let name = s.subrange(j, k);
            match kw_of(name) {
                Some(kw) => (TokenV::Keyword(kw), k),
                None => (TokenV::Identifier(name), k),
            }
        } else {
            (TokenV::Invalid(c), j + 1)
        }
    }
}

/// The token at position `i`.
pub open spec fn tok(s: Seq<char>, i: int) -> TokenV {
    scan(s, i).0
}

/// `j` where it is a sensible position to continue from after `i`:
/// beyond `i` and within the text; the nearest such position otherwise.
/// Recursive descent advances through the text with it, which keeps
/// every parsing position inside the text by construction.
pub open spec fn step(s: Seq<char>, i: int, j: int) -> int {
    if i < j && j <= s.len() {
        j
    } else if i + 1 <= s.len() {
        i + 1
    } else {
        s.len() as int
    }
}

/// The position just past the token at position `i`.  Whenever the
/// position lies within the text this equals `scan(s, i).1` (see
/// `lemma_scan_bounds`).
pub open spec fn nxt(s: Seq<char>, i: int) -> int {
    step(s, i, scan(s, i).1)
}

/// `skip_ws` never moves backwards and never leaves the text.
pub proof fn lemma_skip_ws_bounds(s: Seq<char>, i: int)
    requires
        0 <= i <= s.len(),
    ensures
        i <= skip_ws(s, i) <= s.len(),
    decreases s.len() - i,
{
    if i < s.len() && is_ws(s[i]) {
        lemma_skip_ws_bounds(s, i + 1);
    }
}

/// `digits_end` never moves backwards and never leaves the text.
pub proof fn lemma_digits_end_bounds(s: Seq<char>, i: int)
    requires
        0 <= i <= s.len(),
    ensures
        i <= digits_end(s, i) <= s.len(),
    decreases s.len() - i,
{
    if i < s.len() && is_digit(s[i]) {
        lemma_digits_end_bounds(s, i + 1);
    }
}

/// `ident_end` never moves backwards and never leaves the text.
pub proof fn lemma_ident_end_bounds(s: Seq<char>, i: int)
    requires
        0 <= i <= s.len(),
    ensures
        i <= ident_end(s, i) <= s.len(),
    decreases s.len() - i,
{
    if i < s.len() && is_ident_char(s[i]) {
        lemma_ident_end_bounds(s, i + 1);
    }
}

/// Scanning stays within the text and consumes at least one character
/// unless it reports the end of the input.
pub proof fn lemma_scan_bounds(s: Seq<char>, i: int)
    requires
        0 <= i <= s.len(),
    ensures
        i <= scan(s, i).1 <= s.len(),
        scan(s, i).0 != TokenV::EOF ==> scan(s, i).1 > i,
        scan(s, i).0 != TokenV::EOF ==> nxt(s, i) == scan(s, i).1,
        scan(s, i).0 == TokenV::EOF ==> scan(s, i).1 == s.len(),
        i < s.len() ==> i < nxt(s, i) <= s.len(),
        scan(s, i).0 != TokenV::EOF ==> i < s.len(),
{
    reveal(crate::scan::scan);
    lemma_skip_ws_bounds(s, i);
    let j = skip_ws(s, i);
    if j < s.len() {
        lemma_digits_end_bounds(s, j);
        lemma_ident_end_bounds(s, j);
        if is_digit(s[j]) {
            lemma_digits_end_bounds(s, j + 1);
            assert(digits_end(s, j) == digits_end(s, j + 1));
        }
        if is_ident_char(s[j]) {
            lemma_ident_end_bounds(s, j + 1);
            assert(ident_end(s, j) == ident_end(s, j + 1));
        }
    }
}

} // verus!

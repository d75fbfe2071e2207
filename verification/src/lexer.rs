use vstd::prelude::*;

verus! {

use crate::ast::{EKeyword, Token, TokenV, token_view, single_token};
use crate::reader::{Reader, is_ws_char};
broadcast use crate::reader::Reader::lemma_wf;

use crate::scan::{
    is_digit, is_ident_char, dec_value, digits_end, ident_end, kw_of, probe_second,
    scan, skip_ws, tok, lemma_digits_end_bounds, lemma_ident_end_bounds,
};

/// Whether `c` is an ASCII decimal digit.
fn is_digit_char(c: char) -> (r: bool)
    ensures
        r == is_digit(c),
{
    '0' <= c && c <= '9'
}

/// Whether `c` may appear in an identifier.
fn is_ident_char_exec(c: char) -> (r: bool)
    ensures
        r == is_ident_char(c),
{
    ('a' <= c && c <= 'z') || ('A' <= c && c <= 'Z') || c == '_'
}

/// Every character of `ds` is a digit.
pub open spec fn all_digits(ds: Seq<char>) -> bool {
    forall|k: int| 0 <= k < ds.len() ==> is_digit(#[trigger] ds[k])
}

/// The value of a digit run is never negative.
proof fn lemma_dec_value_nonneg(ds: Seq<char>)
    requires
        all_digits(ds),
    ensures
        dec_value(ds) >= 0,
    decreases ds.len(),
{
    if ds.len() > 0 {
        assert(all_digits(ds.drop_last()));
        lemma_dec_value_nonneg(ds.drop_last());
    }
}

/// Turns source text into a sequence of tokens, one per call.
pub struct Lexer<'r> {
    reader: Reader<'r>,
}

impl<'r> Lexer<'r> {
    /// The text being scanned.
    pub closed spec fn text(&self) -> Seq<char> {
        self.reader.text()
    }

    /// The position the next token will be scanned from.
    pub closed spec fn pos(&self) -> int {
        self.reader.pos()
    }

    pub closed spec fn wf(&self) -> bool {
        self.reader.wf()
    }

    /// A well-formed scanner's position lies within its text.
    pub broadcast proof fn lemma_wf(self)
        requires
            #[trigger] self.wf(),
        ensures
            0 <= self.pos() <= self.text().len(),
    {
        self.reader.lemma_wf();
    }

    pub fn new(source: &'r str) -> (r: Lexer<'r>)
        requires
            source.is_ascii(),
        ensures
            r.wf(),
            r.text() == source@,
            r.pos() == 0,
    {
        Lexer { reader: Reader::new(source) }
    }

    /// Scan the token at the current position and move past it.
    pub fn next_token(&mut self) -> (t: Token)
        requires
            old(self).wf(),
        ensures
            final(self).wf(),
            final(self).text() == old(self).text(),
            token_view(t) == scan(old(self).text(), old(self).pos()).0,
            final(self).pos() == scan(old(self).text(), old(self).pos()).1,
    {
        proof {
            reveal(crate::scan::scan);
        }
        let ghost s = self.text();
        let ghost i = self.pos();
        self.reader.skip_whitespace();
        let len = self.reader.len();
        if self.reader.position() >= len {
            proof {
                crate::scan::lemma_skip_ws_bounds(s, i);
            }
            self.reader.seek(len);
            return Token::EOF;
        }
        let c = self.reader.current();
        if c == '!' {
            self.parse_double_or_single('=', Token::NotEqual, Token::Bang)
        } else if c == '<' {
            self.parse_double_or_single('=', Token::LessThanOrEqual, Token::LessThan)
        } else if c == '>' {
            self.parse_double_or_single('=', Token::GreaterThanOrEqual, Token::GreaterThan)
        } else if c == '=' {
            self.parse_double_or_single('=', Token::Equal, Token::Assign)
        } else if let Some(t) = Token::from_char(c) {
            self.reader.skip(1);
            t
        } else if is_digit_char(c) {
            self.parse_number()
        } else if is_ident_char_exec(c) {
            self.parse_ident_or_keyword()
        } else {
            self.reader.skip(1);
            Token::Invalid(c)
        }
    }

    /// Scan the token at the current position without moving past it.
    /// Any number of such calls return the same token and leave the
    /// position where it was: the lookahead is idempotent.
    pub fn peek_token(&mut self) -> (t: Token)
        requires
            old(self).wf(),
        ensures
            final(self).wf(),
            final(self).text() == old(self).text(),
            final(self).pos() == old(self).pos(),
            token_view(t) == tok(old(self).text(), old(self).pos()),
    {
        let saved = self.reader.position();
        let token = self.next_token();
        self.reader.seek(saved);
        token
    }

    /// Emit `double` and consume two characters when the character
    /// after the current one is `second`; emit `single` and consume one
    /// character otherwise.
    fn parse_double_or_single(&mut self, second_char: char, double: Token, single: Token) -> (t:
        Token)
        requires
            old(self).wf(),
            old(self).pos() < old(self).text().len(),
        ensures
            final(self).wf(),
            final(self).text() == old(self).text(),
            (token_view(t), final(self).pos()) == probe_second(
                old(self).text(),
                old(self).pos(),
                second_char,
                token_view(double),
                token_view(single),
            ),
    {
        if let Some(ch) = self.reader.peek() {
            if ch == second_char {
                self.reader.skip(2);
                return double;
            }
        }
        self.reader.skip(1);
        single
    }

    /// Scan a run of digits as an unsigned 64-bit integer literal, or
    /// report overflow when its value does not fit.
    fn parse_number(&mut self) -> (t: Token)
        requires
            old(self).wf(),
            old(self).pos() < old(self).text().len(),
            is_digit(old(self).text()[old(self).pos()]),
        ensures
            final(self).wf(),
            final(self).text() == old(self).text(),
            final(self).pos() == digits_end(old(self).text(), old(self).pos()),
            ({
                let v = dec_value(
                    old(self).text().subrange(
                        old(self).pos(),
                        digits_end(old(self).text(), old(self).pos()),
                    ),
                );
                token_view(t) == if v <= u64::MAX as int {
                    TokenV::Integer(v as u64)
                } else {
                    TokenV::Overflow
                }
            }),
    {
        let ghost s = self.text();
        let start = self.reader.position();
        let len = self.reader.len();
        let mut val: u64 = 0;
        let mut over: bool = false;
        while self.reader.position() < len && is_digit_char(self.reader.current())
            invariant
                self.wf(),
                self.text() == s,
                len == s.len(),
                start <= self.pos() <= len,
                all_digits(s.subrange(start as int, self.pos())),
                digits_end(s, self.pos()) == digits_end(s, start as int),
                !over ==> val == dec_value(s.subrange(start as int, self.pos())),
                over ==> dec_value(s.subrange(start as int, self.pos())) > u64::MAX as int,
            decreases s.len() - self.pos(),
        {
            let ghost p = self.pos();
            let ghost run = s.subrange(start as int, p);
            let c = self.reader.current();
            let d = (c as u8 - 48) as u64;
            proof {
                assert(run.push(s[p]) =~= s.subrange(start as int, p + 1));
                assert(dec_value(run.push(s[p])) == dec_value(run) * 10 + d) by {
                    assert(run.push(s[p]).drop_last() =~= run);
                    assert((s[p] as int) < 128);
                }
                lemma_dec_value_nonneg(run);
            }
            if over {
                proof {
                    assert(dec_value(run) * 10 + d > u64::MAX as int) by (nonlinear_arith)
                        requires
                            dec_value(run) > u64::MAX as int,
                            d >= 0,
                    ;
                }
            } else if val > (u64::MAX - d) / 10 {
                proof {
                    assert(val * 10 + d > u64::MAX as int) by (nonlinear_arith)
                        requires
                            val > (u64::MAX - d) / 10,
                            0 <= d <= 9,
                    ;
                }
                over = true;
            } else {
                proof {
                    assert(val * 10 + d <= u64::MAX as int) by (nonlinear_arith)
                        requires
                            val <= (u64::MAX - d) / 10,
                            0 <= d <= 9,
                    ;
                }
                val = val * 10 + d;
            }
            self.reader.skip(1);
        }
        proof {
            if self.pos() < s.len() {
                assert(!is_digit(s[self.pos()]));
            }
            assert(digits_end(s, self.pos()) == self.pos());
        }
        if over {
            Token::Overflow
        } else {
            Token::Integer(val)
        }
    }

    /// Scan a run of identifier characters, then decide between a
    /// keyword and an identifier.
    fn parse_ident_or_keyword(&mut self) -> (t: Token)
        requires
            old(self).wf(),
            old(self).pos() < old(self).text().len(),
            is_ident_char(old(self).text()[old(self).pos()]),
        ensures
            final(self).wf(),
            final(self).text() == old(self).text(),
            final(self).pos() == ident_end(old(self).text(), old(self).pos()),
            ({
                let name = old(self).text().subrange(
                    old(self).pos(),
                    ident_end(old(self).text(), old(self).pos()),
                );
                token_view(t) == match kw_of(name) {
                    Some(kw) => TokenV::Keyword(kw),
                    None => TokenV::Identifier(name),
                }
            }),
    {
        let ghost s = self.text();
        let start = self.reader.position();
        let len = self.reader.len();
        while self.reader.position() < len && is_ident_char_exec(self.reader.current())
            invariant
                self.wf(),
                self.text() == s,
                len == s.len(),
                start <= self.pos() <= len,
                ident_end(s, self.pos()) == ident_end(s, start as int),
            decreases s.len() - self.pos(),
        {
            self.reader.skip(1);
        }
        proof {
            if self.pos() < s.len() {
                assert(!is_ident_char(s[self.pos()]));
            }
            assert(ident_end(s, self.pos()) == self.pos());
        }
        let end = self.reader.position();
        let name = self.reader.slice_string(start, end);
        proof {
            reveal_strlit("fn");
            reveal_strlit("let");
            reveal_strlit("if");
            reveal_strlit("else");
            reveal_strlit("true");
            reveal_strlit("false");
            reveal_strlit("return");
            assert(("fn")@ =~= seq!['f', 'n']);
            assert(("let")@ =~= seq!['l', 'e', 't']);
            assert(("if")@ =~= seq!['i', 'f']);
            assert(("else")@ =~= seq!['e', 'l', 's', 'e']);
            assert(("true")@ =~= seq!['t', 'r', 'u', 'e']);
            assert(("false")@ =~= seq!['f', 'a', 'l', 's', 'e']);
            assert(("return")@ =~= seq!['r', 'e', 't', 'u', 'r', 'n']);
        }
        if name == String::from_str("fn") {
            Token::Keyword(EKeyword::Function)
        } else if name == String::from_str("let") {
            Token::Keyword(EKeyword::Let)
        } else if name == String::from_str("if") {
            Token::Keyword(EKeyword::If)
        } else if name == String::from_str("else") {
            Token::Keyword(EKeyword::Else)
        } else if name == String::from_str("true") {
            Token::Keyword(EKeyword::True)
        } else if name == String::from_str("false") {
            Token::Keyword(EKeyword::False)
        } else if name == String::from_str("return") {
            Token::Keyword(EKeyword::Return)
        } else {
            Token::Identifier(name)
        }
    }

    /// Whether the scanner sits on the last character of the text, or
    /// past its end.
    pub fn is_last(&self) -> (r: bool)
        requires
            self.wf(),
        ensures
            r == (self.pos() + 1 >= self.text().len()),
    {
        self.reader.is_last()
    }

    /// Move the scan position backward by `n` characters, stopping at
    /// the start of the text.
    pub fn rewind(&mut self, n: usize)
        requires
            old(self).wf(),
        ensures
            final(self).wf(),
            final(self).text() == old(self).text(),
            final(self).pos() == if n <= old(self).pos() {
                old(self).pos() - n
            } else {
                0
            },
    {
        self.reader.rewind(n);
    }
}

} // verus!

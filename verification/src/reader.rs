use vstd::prelude::*;

verus! {

use vstd::string::StrSliceExecFns;
use crate::scan::{is_ws, skip_ws};

/// Whether `c` is ASCII whitespace.
pub(crate) fn is_ws_char(c: char) -> (r: bool)
    ensures
        r == is_ws(c),
{
    c == ' ' || c == '\t' || c == '\n' || c == '\u{c}' || c == '\r'
}

/// A forward-movable, rewindable read position over an ASCII source
/// text, character by character.
pub(crate) struct Reader<'r> {
    src: &'r str,
    position: usize,
    length: usize,
}

impl<'r> Reader<'r> {
    /// The text being read.
    pub closed spec fn text(&self) -> Seq<char> {
        self.src@
    }

    /// The current read position.
    pub closed spec fn pos(&self) -> int {
        self.position as int
    }

    /// The reader holds ASCII text and sits at a position within it,
    /// or just past its end.
    pub closed spec fn wf(&self) -> bool {
        self.src.is_ascii() && self.position <= self.src@.len() && self.length == self.src@.len()
    }

    /// A well-formed reader's position lies within its text.
    pub broadcast proof fn lemma_wf(self)
        requires
            #[trigger] self.wf(),
        ensures
            0 <= self.pos() <= self.text().len(),
    {
    }

    pub(crate) fn new(text: &'r str) -> (r: Reader<'r>)
        requires
            text.is_ascii(),
        ensures
            r.wf(),
            r.text() == text@,
            r.pos() == 0,
    {
        Reader { src: text, position: 0, length: text.unicode_len() }
    }

    /// The character count of the text.
    pub(crate) fn len(&self) -> (n: usize)
        requires
            self.wf(),
        ensures
            n == self.text().len(),
    {
        self.length
    }

    /// The current position, as a number.
    pub(crate) fn position(&self) -> (p: usize)
        ensures
            p == self.pos(),
    {
        self.position
    }

    /// Move the reader to an arbitrary position within the text.
    pub(crate) fn seek(&mut self, p: usize)
        requires
            old(self).wf(),
            p <= old(self).text().len(),
        ensures
            final(self).wf(),
            final(self).text() == old(self).text(),
            final(self).pos() == p,
    {
        self.position = p;
    }

    /// The character at the current position.
    pub(crate) fn current(&self) -> (c: char)
        requires
            self.wf(),
            self.pos() < self.text().len(),
        ensures
            c == self.text()[self.pos()],
    {
        let b = self.src.get_ascii(self.position);
        proof {
            assert((self.text()[self.pos()] as int) < 128);
        }
        b as char
    }

    /// Move one character forward and return the new current character,
    /// or nothing (without moving) when no further character exists.
    pub(crate) fn next(&mut self) -> (c: Option<char>)
        requires
            old(self).wf(),
        ensures
            final(self).wf(),
            final(self).text() == old(self).text(),
            old(self).pos() + 1 < old(self).text().len() ==> {
                &&& final(self).pos() == old(self).pos() + 1
                &&& c == Some(old(self).text()[old(self).pos() + 1])
            },
            old(self).pos() + 1 >= old(self).text().len() ==> {
                &&& final(self).pos() == old(self).pos()
                &&& c is None
            },
    {
        if self.len() - self.position > 1 {
            self.position = self.position + 1;
            Some(self.current())
        } else {
            None
        }
    }

    /// The next character, without moving, or nothing when no further
    /// character exists.
    pub(crate) fn peek(&self) -> (c: Option<char>)
        requires
            self.wf(),
        ensures
            self.pos() + 1 < self.text().len() ==> c == Some(self.text()[self.pos() + 1]),
            self.pos() + 1 >= self.text().len() ==> c is None,
    {
        if self.len() - self.position > 1 {
            Some(self.src.get_ascii(self.position + 1) as char)
        } else {
            None
        }
    }

    /// Move forward by `n` characters, stopping at the end of the text.
    pub(crate) fn skip(&mut self, n: usize)
        requires
            old(self).wf(),
        ensures
            final(self).wf(),
            final(self).text() == old(self).text(),
            final(self).pos() == if old(self).pos() + n <= old(self).text().len() {
                old(self).pos() + n
            } else {
                old(self).text().len() as int
            },
    {
        let len = self.len();
        if n >= len - self.position {
            self.position = len;
        } else {
            self.position = self.position + n;
        }
    }

    /// Move backward by `n` characters, stopping at the start of the text.
    pub(crate) fn rewind(&mut self, n: usize)
        requires
            old(self).wf(),
        ensures
            final(self).wf(),
            final(self).text() == old(self).text(),
            final(self).pos() == if n <= old(self).pos() {
                old(self).pos() - n
            } else {
                0
            },
    {
        if n > self.position {
            self.position = 0;
        } else {
            self.position = self.position - n;
        }
    }

    /// Advance past consecutive whitespace, stopping at the first
    /// non-whitespace character or at the end of the text.
    pub(crate) fn skip_whitespace(&mut self)
        requires
            old(self).wf(),
        ensures
            final(self).wf(),
            final(self).text() == old(self).text(),
            final(self).pos() == skip_ws(old(self).text(), old(self).pos()),
    {
        let len = self.len();
        while self.position < len && is_ws_char(self.current())
            invariant
                self.wf(),
                self.text() == old(self).text(),
                len == self.text().len(),
                skip_ws(self.text(), self.pos()) == skip_ws(old(self).text(), old(self).pos()),
            decreases self.text().len() - self.pos(),
        {
            proof {
                assert(is_ws(self.text()[self.pos()]));
            }
            self.position = self.position + 1;
        }
        proof {
            if self.pos() < self.text().len() {
                assert(!is_ws(self.text()[self.pos()]));
            }
        }
    }

    /// Whether the reader sits on the last character of the text, or
    /// past the end.
    pub(crate) fn is_last(&self) -> (r: bool)
        requires
            self.wf(),
        ensures
            r == (self.pos() + 1 >= self.text().len()),
    {
        self.len() - self.position <= 1
    }

    /// The piece of text between the two given positions, as an owned
    /// string.
    pub(crate) fn slice_string(&self, from: usize, to: usize) -> (r: String)
        requires
            self.wf(),
            from <= to <= self.text().len(),
        ensures
            r@ == self.text().subrange(from as int, to as int),
    {
        self.src.substring_ascii(from, to).to_owned()
    }
}

} // verus!

//! The scanner: a character-level cursor over one file's text, the
//! single source of truth for "where am I" during parsing. Lookahead
//! never consumes; every consumption advances the position by exactly
//! the consumed text, keeping line and column in step.

use vstd::prelude::*;
use crate::location::{column_after, newline_count, FileName, Location, Point};
use crate::location::{lemma_column_after_le, lemma_newline_count_le};

verus! {

pub struct Scanner<'i> {
    pub src: &'i str,
    pub len: usize,
    pub pos: usize,
    pub line: usize,
    pub col: usize,
    pub file: FileName,
}

impl<'i> Scanner<'i> {
    /// The already consumed prefix of the text.
    pub open spec fn consumed(&self) -> Seq<char> {
        self.src@.subrange(0, self.pos as int)
    }

    /// The cursor cuts the text, and line and column describe the
    /// consumed prefix exactly.
    pub open spec fn wf(&self) -> bool {
        &&& self.len == self.src@.len()
        &&& self.len < usize::MAX
        &&& self.pos <= self.len
        &&& self.line == 1 + newline_count(self.consumed())
        &&& self.col == column_after(1, self.consumed())
    }

    /// The cursor's position as a `Point`.
    pub open spec fn spec_point(&self) -> Point {
        Point { file: self.file, offset: self.pos, line: self.line, column: self.col }
    }

    /// The scanner still walks the same text of the same file.
    pub open spec fn same_doc(&self, other: &Scanner<'i>) -> bool {
        &&& self.src@ == other.src@
        &&& self.len == other.len
        &&& self.file == other.file
    }

    pub fn new(file: FileName, src: &'i str) -> (r: Scanner<'i>)
        requires
            src@.len() < usize::MAX,
        ensures
            r.wf(),
            r.pos == 0,
            r.src@ == src@,
            r.file == file,
    {
        let len = src.unicode_len();
        let r = Scanner { src, len, pos: 0, line: 1, col: 1, file };
        proof {
            assert(r.consumed() =~= Seq::<char>::empty());
        }
        r
    }

    pub fn at_eof(&self) -> (r: bool)
        requires
            self.wf(),
        ensures
            r == (self.pos == self.len),
    {
        self.pos >= self.len
    }

    /// The character `k` places ahead of the cursor, if the text
    /// reaches that far.
    pub fn peek(&self, k: usize) -> (r: Option<char>)
        requires
            self.wf(),
        ensures
            r == (if self.pos + k < self.len {
                Some(self.src@[self.pos + k])
            } else {
                None::<char>
            }),
    {
        if k < self.len - self.pos {
            Some(self.src.get_char(self.pos + k))
        } else {
            None
        }
    }

    /// Whether the character `k` places ahead is exactly `c`.
    pub fn peek_is(&self, k: usize, c: char) -> (r: bool)
        requires
            self.wf(),
        ensures
            r == (self.pos + k < self.len && self.src@[self.pos + k] == c),
    {
        match self.peek(k) {
            Some(d) => d == c,
            None => false,
        }
    }

    /// Consumes one character, keeping line and column in step.
    pub fn bump(&mut self)
        requires
            old(self).wf(),
            old(self).pos < old(self).len,
        ensures
            final(self).wf(),
            final(self).same_doc(old(self)),
            final(self).src == old(self).src,
            final(self).pos == old(self).pos + 1,
    {
        proof {
            lemma_newline_count_le(self.consumed());
            lemma_column_after_le(1, self.consumed());
        }
        let c = self.src.get_char(self.pos);
        if c == '\n' {
            self.line = self.line + 1;
            self.col = 1;
        } else {
            self.col = self.col + 1;
        }
        self.pos = self.pos + 1;
        proof {
            assert(self.consumed() =~= old(self).consumed().push(c));
            assert(self.consumed().drop_last() =~= old(self).consumed());
        }
    }

    /// The cursor's position, for stamping nodes and diagnostics.
    pub fn point(&self) -> (r: Point)
        requires
            self.wf(),
        ensures
            r == self.spec_point(),
    {
        Point { file: self.file.clone(), offset: self.pos, line: self.line, column: self.col }
    }

    /// The span from an earlier point of this scanner to the cursor.
    pub fn loc_from(&self, start: &Point) -> (r: Location)
        requires
            self.wf(),
            start.file == self.file,
            start.offset <= self.pos,
        ensures
            r.start == *start,
            r.end == self.spec_point(),
            r.wf(),
    {
        let end = self.point();
        Location::new(start, &end)
    }

    /// The text between an earlier position and the cursor, owned.
    pub fn text_from(&self, start: usize) -> (r: String)
        requires
            self.wf(),
            start <= self.pos,
        ensures
            r@ == self.src@.subrange(start as int, self.pos as int),
    {
        self.src.substring_char(start, self.pos).to_owned()
    }

    /// The text between an earlier position and the cursor, borrowed.
    pub fn str_from(&self, start: usize) -> (r: &'i str)
        requires
            self.wf(),
            start <= self.pos,
        ensures
            r@ == self.src@.subrange(start as int, self.pos as int),
    {
        self.src.substring_char(start, self.pos)
    }
}

} // verus!

//! The position model: an immutable cursor (`Point`) into one file's text,
//! and a half-open span between two such cursors (`Location`).
//!
//! Offsets count characters, not bytes; lines and columns both start at 1.
//! A new `Point` is produced by shifting an existing one across the text
//! that was consumed at it.

use vstd::prelude::*;

verus! {

/// Identity of a source file, by name.
#[derive(Debug, PartialEq, Eq)]
pub struct FileName {
    pub name: String,
}

impl FileName {
    pub fn new(name: &str) -> (r: FileName)
        ensures
            r.name@ == name@,
    {
        FileName { name: name.to_owned() }
    }

    pub fn as_str(&self) -> (r: &str)
        ensures
            r@ == self.name@,
    {
        self.name.as_str()
    }
}

impl Clone for FileName {
    fn clone(&self) -> (r: Self)
        ensures
            r == self,
    {
        FileName { name: self.name.clone() }
    }
}

impl View for FileName {
    type V = Seq<char>;

    /// A file's identity is its name, as the sequence of its characters.
    open spec fn view(&self) -> Seq<char> {
        self.name@
    }
}

/// How many newline characters `s` holds.
pub open spec fn newline_count(s: Seq<char>) -> nat
    decreases s.len(),
{
    if s.len() == 0 {
        0
    } else if s.last() == '\n' {
        newline_count(s.drop_last()) + 1
    } else {
        newline_count(s.drop_last())
    }
}

/// The column reached after reading `s` from column `col`:
/// one past the number of characters after the last newline.
pub open spec fn column_after(col: nat, s: Seq<char>) -> nat
    decreases s.len(),
{
    if s.len() == 0 {
        col
    } else if s.last() == '\n' {
        1
    } else {
        column_after(col, s.drop_last()) + 1
    }
}

/// An immutable cursor: file identity, character offset, line and column.
#[derive(Debug, PartialEq, Eq)]
pub struct Point {
    pub file: FileName,
    pub offset: usize,
    pub line: usize,
    pub column: usize,
}

impl Clone for Point {
    fn clone(&self) -> (r: Self)
        ensures
            r == self,
    {
        Point {
            file: self.file.clone(),
            offset: self.offset,
            line: self.line,
            column: self.column,
        }
    }
}

impl Point {
    /// The start cursor for a file: offset 0, line 1, column 1.
    /// The content is the text the cursor will move over; the start
    /// position does not depend on it.
    pub fn new(file: FileName, _content: &str) -> (r: Point)
        ensures
            r.file == file,
            r.offset == 0,
            r.line == 1,
            r.column == 1,
    {
        Point { file, offset: 0, line: 1, column: 1 }
    }

    /// A new `Point` advanced past `text`: the offset grows by the length
    /// of `text`, the line by the newlines in it, and the column restarts
    /// after the last newline.
    ///
    /// The caller must only shift by text actually consumed at this point,
    /// so running off the ends of the counters is a machine limit, not a
    /// grammar condition.
    pub fn shift(self, text: &str) -> (r: Point)
        requires
            self.offset + text@.len() <= usize::MAX,
            self.line + newline_count(text@) <= usize::MAX,
            self.column + text@.len() <= usize::MAX,
        ensures
            r.file == self.file,
            r.offset == self.offset + text@.len(),
            r.line == self.line + newline_count(text@),
            r.column == column_after(self.column as nat, text@),
    {
        let len = text.unicode_len();
        let mut i: usize = 0;
        let mut line = self.line;
        let mut column = self.column;
        while i < len
            invariant
                i <= len,
                len == text@.len(),
                self.offset + text@.len() <= usize::MAX,
                self.line + newline_count(text@) <= usize::MAX,
                self.column + text@.len() <= usize::MAX,
                line == self.line + newline_count(text@.subrange(0, i as int)),
                column == column_after(self.column as nat, text@.subrange(0, i as int)),
                column <= self.column + i,
            decreases len - i,
        {
            let c = text.get_char(i);
            proof {
                assert(text@.subrange(0, i + 1).drop_last() =~= text@.subrange(0, i as int));
                assert(text@.subrange(0, i + 1).last() == text@[i as int]);
                lemma_newline_count_prefix_le(text@, i + 1);
            }
            if c == '\n' {
                line = line + 1;
                column = 1;
            } else {
                column = column + 1;
            }
            i = i + 1;
        }
        proof {
            assert(text@.subrange(0, len as int) =~= text@);
        }
        Point { file: self.file, offset: self.offset + len, line, column }
    }
}

/// The newline count of a sequence is at most its length.
pub proof fn lemma_newline_count_le(s: Seq<char>)
    ensures
        newline_count(s) <= s.len(),
    decreases s.len(),
{
    if s.len() > 0 {
        lemma_newline_count_le(s.drop_last());
    }
}

/// A prefix holds no more newlines than the whole.
pub proof fn lemma_newline_count_prefix_le(s: Seq<char>, n: int)
    requires
        0 <= n <= s.len(),
    ensures
        newline_count(s.subrange(0, n)) <= newline_count(s),
    decreases s.len() - n,
{
    if n < s.len() {
        lemma_newline_count_prefix_le(s, n + 1);
        assert(s.subrange(0, n + 1).drop_last() =~= s.subrange(0, n));
    } else {
        assert(s.subrange(0, n) =~= s);
    }
}

/// The column after reading `s` is at most the starting column plus the
/// length of `s`.
pub proof fn lemma_column_after_le(col: nat, s: Seq<char>)
    ensures
        column_after(col, s) <= col + s.len(),
    decreases s.len(),
{
    if s.len() > 0 && s.last() != '\n' {
        lemma_column_after_le(col, s.drop_last());
    }
}

/// A half-open span between two `Point`s of the same file, end at or
/// after start.
#[derive(Debug, PartialEq, Eq)]
pub struct Location {
    pub start: Point,
    pub end: Point,
}

impl Clone for Location {
    fn clone(&self) -> (r: Self)
        ensures
            r == self,
    {
        Location { start: self.start.clone(), end: self.end.clone() }
    }
}

impl Location {
    /// Both points must cut the same file, in order.
    pub open spec fn wf(&self) -> bool {
        &&& self.start.file == self.end.file
        &&& self.start.offset <= self.end.offset
    }

    pub fn new(start: &Point, end: &Point) -> (r: Location)
        requires
            start.file == end.file,
            start.offset <= end.offset,
        ensures
            r.start == *start,
            r.end == *end,
            r.wf(),
    {
        Location { start: start.clone(), end: end.clone() }
    }

    /// The smallest span covering both `self` and `other`: the earlier
    /// start to the later end.
    pub fn span_to(&self, other: &Location) -> (r: Location)
        requires
            self.wf(),
            other.wf(),
            self.start.file == other.start.file,
        ensures
            r.wf(),
            r.start == (if self.start.offset <= other.start.offset {
                self.start
            } else {
                other.start
            }),
            r.end == (if self.end.offset >= other.end.offset {
                self.end
            } else {
                other.end
            }),
    {
        let start = if self.start.offset <= other.start.offset {
            self.start.clone()
        } else {
            other.start.clone()
        };
        let end = if self.end.offset >= other.end.offset {
            self.end.clone()
        } else {
            other.end.clone()
        };
        Location { start, end }
    }
}

} // verus!

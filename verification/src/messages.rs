//! The grammar's diagnostic messages: one builder per locally detected
//! violation, each turning into a structured `Log` value.

use vstd::prelude::*;
use crate::location::Location;
use crate::log::{Log, Note, NoteKind, Src};
use crate::log::{decimal_string, decimal_text};

verus! {

/// Relies on String::push: appends the given character to the end of
/// the string.
#[verifier::external_body]
fn push_char(s: &mut String, c: char)
    ensures
        final(s)@ == old(s)@.push(c),
{
    s.push(c)
}

/// A close-comment token with no matching open.
#[derive(Debug)]
pub struct ExtraCommentClose {
    pub loc: Location,
}

impl ExtraCommentClose {
    pub fn new(loc: Location) -> (r: ExtraCommentClose)
        ensures
            r.loc == loc,
    {
        ExtraCommentClose { loc }
    }

    pub fn log(self) -> (r: Log)
        ensures
            r.msg@ == "no comment to close"@,
            r.help is None,
            r.srcs@.len() == 1,
            r.srcs@[0].loc == self.loc,
            r.srcs@[0].annotations@.len() == 1,
            r.srcs@[0].annotations@[0].kind == NoteKind::Error,
            r.srcs@[0].annotations@[0].loc == self.loc,
            r.srcs@[0].annotations@[0].text@ == "found here"@,
    {
        Log::error("no comment to close".to_owned()).with_src(
            Src::new(&self.loc).with_annotation(Note::error(&self.loc, "found here".to_owned())),
        )
    }
}

/// A heading whose level exceeds the maximum of six.
#[derive(Debug)]
pub struct HeadingTooDeep {
    pub loc: Location,
    pub level: usize,
}

impl HeadingTooDeep {
    pub fn new(loc: Location, level: usize) -> (r: HeadingTooDeep)
        ensures
            r.loc == loc,
            r.level == level,
    {
        HeadingTooDeep { loc, level }
    }

    pub fn log(self) -> (r: Log)
        ensures
            r.msg@ == "heading too deep"@,
            r.help matches Some(h) && h@ == "headings should be at most 6 levels deep"@,
            r.srcs@.len() == 1,
            r.srcs@[0].loc == self.loc,
            r.srcs@[0].annotations@.len() == 1,
            r.srcs@[0].annotations@[0].kind == NoteKind::Error,
            r.srcs@[0].annotations@[0].loc == self.loc,
            r.srcs@[0].annotations@[0].text@ == "found heading "@ + decimal_text(self.level as nat)
                + " levels deep"@,
    {
        let note_text = "found heading ".to_owned().concat(
            decimal_string(self.level).as_str(),
        ).concat(" levels deep");
        Log::error("heading too deep".to_owned()).with_src(
            Src::new(&self.loc).with_annotation(Note::error(&self.loc, note_text)),
        ).with_help("headings should be at most 6 levels deep".to_owned())
    }
}

/// An inline attribute list crossing a raw newline before its closing
/// bracket.
#[derive(Debug)]
pub struct NewlineInAttrs {
    pub attr_start_loc: Location,
    pub newline_loc: Location,
}

impl NewlineInAttrs {
    pub fn new(attr_start_loc: Location, newline_loc: Location) -> (r: NewlineInAttrs)
        ensures
            r.attr_start_loc == attr_start_loc,
            r.newline_loc == newline_loc,
    {
        NewlineInAttrs { attr_start_loc, newline_loc }
    }

    pub fn log(self) -> (r: Log)
        requires
            self.attr_start_loc.wf(),
            self.newline_loc.wf(),
            self.attr_start_loc.start.file == self.newline_loc.start.file,
        ensures
            r.msg@ == "newline in attributes"@,
            r.help is None,
            r.srcs@.len() == 1,
            r.srcs@[0].loc.start == (if self.attr_start_loc.start.offset
                <= self.newline_loc.start.offset {
                self.attr_start_loc.start
            } else {
                self.newline_loc.start
            }),
            r.srcs@[0].loc.end == (if self.attr_start_loc.end.offset
                >= self.newline_loc.end.offset {
                self.attr_start_loc.end
            } else {
                self.newline_loc.end
            }),
            r.srcs@[0].annotations@.len() == 2,
            r.srcs@[0].annotations@[0].kind == NoteKind::Error,
            r.srcs@[0].annotations@[0].loc == self.newline_loc,
            r.srcs@[0].annotations@[0].text@ == "newline found here"@,
            r.srcs@[0].annotations@[1].kind == NoteKind::Info,
            r.srcs@[0].annotations@[1].loc == self.attr_start_loc,
            r.srcs@[0].annotations@[1].text@ == "in inline attributes started here"@,
    {
        Log::error("newline in attributes".to_owned()).with_src(
            Src::new(&self.attr_start_loc.span_to(&self.newline_loc)).with_annotation(
                Note::error(&self.newline_loc, "newline found here".to_owned()),
            ).with_annotation(
                Note::info(&self.attr_start_loc, "in inline attributes started here".to_owned()),
            ),
        )
    }
}

/// Input that matches no expected production at this position.
#[derive(Debug)]
pub struct UnexpectedChar {
    pub loc: Location,
    pub found: char,
}

impl UnexpectedChar {
    pub fn new(loc: Location, found: char) -> (r: UnexpectedChar)
        ensures
            r.loc == loc,
            r.found == found,
    {
        UnexpectedChar { loc, found }
    }

    pub fn log(self) -> (r: Log)
        ensures
            r.msg@ == "unexpected character \u{2018}"@ + seq![self.found] + "\u{2019}"@,
            r.help is None,
            r.srcs@.len() == 1,
            r.srcs@[0].loc == self.loc,
            r.srcs@[0].annotations@.len() == 1,
            r.srcs@[0].annotations@[0].kind == NoteKind::Error,
            r.srcs@[0].annotations@[0].loc == self.loc,
            r.srcs@[0].annotations@[0].text@ == "found here"@,
    {
        let mut msg = "unexpected character \u{2018}".to_owned();
        push_char(&mut msg, self.found);
        let msg = msg.concat("\u{2019}");
        Log::error(msg).with_src(
            Src::new(&self.loc).with_annotation(Note::error(&self.loc, "found here".to_owned())),
        )
    }
}

/// A block comment still open when the input ends.
#[derive(Debug)]
pub struct UnterminatedComment {
    pub loc: Location,
}

impl UnterminatedComment {
    pub fn new(loc: Location) -> (r: UnterminatedComment)
        ensures
            r.loc == loc,
    {
        UnterminatedComment { loc }
    }

    pub fn log(self) -> (r: Log)
        ensures
            r.msg@ == "unterminated comment"@,
            r.help is None,
            r.srcs@.len() == 1,
            r.srcs@[0].loc == self.loc,
            r.srcs@[0].annotations@.len() == 1,
            r.srcs@[0].annotations@[0].kind == NoteKind::Error,
            r.srcs@[0].annotations@[0].loc == self.loc,
            r.srcs@[0].annotations@[0].text@ == "comment opened here"@,
    {
        Log::error("unterminated comment".to_owned()).with_src(
            Src::new(&self.loc).with_annotation(
                Note::error(&self.loc, "comment opened here".to_owned()),
            ),
        )
    }
}

/// Input that ends inside a construct still waiting for its closing
/// delimiter.
#[derive(Debug)]
pub struct UnexpectedEof {
    pub loc: Location,
}

impl UnexpectedEof {
    pub fn new(loc: Location) -> (r: UnexpectedEof)
        ensures
            r.loc == loc,
    {
        UnexpectedEof { loc }
    }

    pub fn log(self) -> (r: Log)
        ensures
            r.msg@ == "unexpected end of input"@,
            r.help is None,
            r.srcs@.len() == 1,
            r.srcs@[0].loc == self.loc,
            r.srcs@[0].annotations@.len() == 1,
            r.srcs@[0].annotations@[0].kind == NoteKind::Error,
            r.srcs@[0].annotations@[0].loc == self.loc,
            r.srcs@[0].annotations@[0].text@ == "input ends here"@,
    {
        Log::error("unexpected end of input".to_owned()).with_src(
            Src::new(&self.loc).with_annotation(
                Note::error(&self.loc, "input ends here".to_owned()),
            ),
        )
    }
}

} // verus!

//! Diagnostics assembly: a structured message (primary text, annotated
//! source spans, optional help), built purely; rendering is a
//! collaborator concern.

use vstd::prelude::*;
use crate::location::Location;

verus! {

/// The note classes attached to an annotated span: `Error` marks the
/// fault, `Info` marks contextual spans.
#[derive(Debug, Clone, Copy, PartialEq, Eq)]
pub enum NoteKind {
    Error,
    Info,
}

/// One annotated span inside a diagnostic: where, what class, and the
/// note's text.
#[derive(Debug)]
pub struct Note {
    pub loc: Location,
    pub kind: NoteKind,
    pub text: String,
}

impl Note {
    /// An annotation marking the fault itself.
    pub fn error(loc: &Location, text: String) -> (r: Note)
        ensures
            r.loc == loc,
            r.kind == NoteKind::Error,
            r.text == text,
    {
        Note { loc: loc.clone(), kind: NoteKind::Error, text }
    }

    /// An annotation marking a contextual span.
    pub fn info(loc: &Location, text: String) -> (r: Note)
        ensures
            r.loc == loc,
            r.kind == NoteKind::Info,
            r.text == text,
    {
        Note { loc: loc.clone(), kind: NoteKind::Info, text }
    }
}

/// A stretch of source a diagnostic points into, with its annotations.
#[derive(Debug)]
pub struct Src {
    pub loc: Location,
    pub annotations: Vec<Note>,
}

impl Src {
    pub fn new(loc: &Location) -> (r: Src)
        ensures
            r.loc == loc,
            r.annotations@ == Seq::<Note>::empty(),
    {
        Src { loc: loc.clone(), annotations: Vec::new() }
    }

    pub fn with_annotation(self, note: Note) -> (r: Src)
        ensures
            r.loc == self.loc,
            r.annotations@ == self.annotations@.push(note),
    {
        let mut annotations = self.annotations;
        annotations.push(note);
        Src { loc: self.loc, annotations }
    }
}

/// A structured diagnostic: a primary message, zero or more annotated
/// source stretches, and an optional help text. Only the error severity
/// is exercised here.
#[derive(Debug)]
pub struct Log {
    pub msg: String,
    pub srcs: Vec<Src>,
    pub help: Option<String>,
}

impl Log {
    /// An error diagnostic with the given primary message.
    pub fn error(msg: String) -> (r: Log)
        ensures
            r.msg == msg,
            r.srcs@ == Seq::<Src>::empty(),
            r.help is None,
    {
        Log { msg, srcs: Vec::new(), help: None }
    }

    pub fn with_src(self, src: Src) -> (r: Log)
        ensures
            r.msg == self.msg,
            r.srcs@ == self.srcs@.push(src),
            r.help == self.help,
    {
        let mut srcs = self.srcs;
        srcs.push(src);
        Log { msg: self.msg, srcs, help: self.help }
    }

    pub fn with_help(self, help: String) -> (r: Log)
        ensures
            r.msg == self.msg,
            r.srcs == self.srcs,
            r.help matches Some(h) && h == help,
    {
        Log { msg: self.msg, srcs: self.srcs, help: Some(help) }
    }
}

// ---------------------------------------------------------------------
// Decimal rendering, for messages that report a number
// ---------------------------------------------------------------------

/// The digit character for `d` in `0 ..= 9`.
pub open spec fn digit_char(d: nat) -> char {
    if d == 0 {
        '0'
    } else if d == 1 {
        '1'
    } else if d == 2 {
        '2'
    } else if d == 3 {
        '3'
    } else if d == 4 {
        '4'
    } else if d == 5 {
        '5'
    } else if d == 6 {
        '6'
    } else if d == 7 {
        '7'
    } else if d == 8 {
        '8'
    } else {
        '9'
    }
}

/// The decimal digits of `n`, most significant first.
pub open spec fn decimal_text(n: nat) -> Seq<char>
    decreases n,
{
    if n < 10 {
        seq![digit_char(n)]
    } else {
        decimal_text(n / 10) + seq![digit_char(n % 10)]
    }
}

fn digit_str(d: usize) -> (r: &'static str)
    requires
        d < 10,
    ensures
        r@ == seq![digit_char(d as nat)],
{
    proof {
        reveal_strlit("0");
        reveal_strlit("1");
        reveal_strlit("2");
        reveal_strlit("3");
        reveal_strlit("4");
        reveal_strlit("5");
        reveal_strlit("6");
        reveal_strlit("7");
        reveal_strlit("8");
        reveal_strlit("9");
    }
    match d {
        0 => "0",
        1 => "1",
        2 => "2",
        3 => "3",
        4 => "4",
        5 => "5",
        6 => "6",
        7 => "7",
        8 => "8",
        _ => "9",
    }
}

/// `n` written in decimal.
pub fn decimal_string(n: usize) -> (r: String)
    ensures
        r@ == decimal_text(n as nat),
    decreases n,
{
    if n < 10 {
        digit_str(n).to_owned()
    } else {
        let high = decimal_string(n / 10);
        high.concat(digit_str(n % 10))
    }
}

} // verus!

//! The grammar engine: recursive-descent productions over the scanner,
//! one per `Content` form, dispatched by one or two characters of
//! lookahead.
//!
//! Every production that returns a node guarantees the round-trip
//! property: the node's location delimits exactly the text it consumed,
//! and that text is the node's reconstructed concrete syntax
//! (`content_ok`). A production that detects a violation converts it at
//! once into a diagnostic value and aborts the parse of the file.
//!
//! The concrete syntax, fixed here:
//! - `#!` on the very first line: a shebang directive.
//! - `.qualifier.name++[attrs]{inline}...` — a command invocation; a
//!   single `: rest` takes the rest of the line as the remainder
//!   argument, `:: a :: b` takes trailer arguments separated by `::`.
//! - an attribute list `[a, b=c]` must close on the line it opens, and
//!   so must an inline `{...}` argument group.
//! - sugar: `_italic_`, `*bold*`, `` `monospace` ``, `=smallcaps=`,
//!   `==alternate face==`, `@[mark]`, `&[reference]`, and headings as a
//!   run of `#` at the start of a line (up to six, deeper is an error),
//!   with optional `+` markers.
//! - `//` comments run to the end of the line; `/* ... */` comments
//!   nest to arbitrary depth.
//! - `!verbatim!` spans, `-`/`--`/`---` dashes, `~`/`~~` glue; a `~`
//!   straight before a line break is kept raw as spilt glue.

use vstd::prelude::*;
use crate::ast::{
    all_contents_ok, all_groups_ok, attr_items_text, attr_loc, attr_raw, attrs_ok,
    braces_text, command_head_text, content_loc, content_ok, content_text, contents_text,
    dash_text, glue_text, heading_head_text, loc_delimits, mlc_parts_text, mlc_part_text,
    mlc_text, repeat_char, sugar_ok, sugar_text,
};
use crate::ast::{
    lemma_attr_items_text_push, lemma_braces_text_push, lemma_contents_text_push,
    lemma_mlc_parts_text_push, lemma_subrange_split, lemma_trailers_text_push, trailers_text,
};
use crate::ast::{is_ident_char, is_inline_ws_char, is_special_char, is_word_char, is_ws_char};
use crate::ast::{mlc_ok, mlc_parts_ok, mlc_part_ok};
use crate::ast::{Attr, Attrs, Content, Dash, Glue, MultiLineComment, MultiLineCommentPart, Sugar};
use crate::location::{FileName, Location};
use crate::log::Log;
use crate::messages::{
    ExtraCommentClose, HeadingTooDeep, NewlineInAttrs, UnexpectedChar, UnexpectedEof,
    UnterminatedComment,
};
use crate::scanner::Scanner;

verus! {

/// One grammar violation, as a structured value; `log` turns it into a
/// renderable diagnostic.
#[derive(Debug)]
pub enum ParseError {
    UnexpectedChar(UnexpectedChar),
    ExtraCommentClose(ExtraCommentClose),
    HeadingTooDeep(HeadingTooDeep),
    NewlineInAttrs(NewlineInAttrs),
    UnterminatedComment(UnterminatedComment),
    UnexpectedEof(UnexpectedEof),
}

/// The location cuts `src`.
pub open spec fn loc_in_src(src: Seq<char>, loc: Location) -> bool {
    &&& loc.wf()
    &&& loc.end.offset <= src.len()
}

/// The location points into `src`, inside the named file.
pub open spec fn err_loc_ok(src: Seq<char>, file: FileName, loc: Location) -> bool {
    &&& loc_in_src(src, loc)
    &&& loc.start.file == file
}

/// Every error points at the precise offending text: an unexpected
/// character's own single-character span, the stray `*/`, the too-deep
/// `#` run with its attempted level, the raw newline and the opening
/// bracket it violates, the `/*` never closed, or the end of input.
pub open spec fn parse_error_at(src: Seq<char>, e: ParseError) -> bool {
    match e {
        ParseError::UnexpectedChar(u) => {
            &&& loc_in_src(src, u.loc)
            &&& src.subrange(u.loc.start.offset as int, u.loc.end.offset as int) == seq![u.found]
        },
        ParseError::ExtraCommentClose(x) => {
            &&& loc_in_src(src, x.loc)
            &&& src.subrange(x.loc.start.offset as int, x.loc.end.offset as int) == seq!['*', '/']
        },
        ParseError::HeadingTooDeep(h) => {
            &&& loc_in_src(src, h.loc)
            &&& h.level > 6
            &&& src.subrange(h.loc.start.offset as int, h.loc.end.offset as int) == repeat_char(
                '#',
                h.level as nat,
            )
        },
        ParseError::NewlineInAttrs(n) => {
            &&& loc_in_src(src, n.attr_start_loc)
            &&& loc_in_src(src, n.newline_loc)
            &&& src.subrange(
                n.newline_loc.start.offset as int,
                n.newline_loc.end.offset as int,
            ) == seq!['\n']
            &&& (src.subrange(
                n.attr_start_loc.start.offset as int,
                n.attr_start_loc.end.offset as int,
            ) == seq!['['] || src.subrange(
                n.attr_start_loc.start.offset as int,
                n.attr_start_loc.end.offset as int,
            ) == seq!['{'])
        },
        ParseError::UnterminatedComment(c) => {
            &&& loc_in_src(src, c.loc)
            &&& src.subrange(c.loc.start.offset as int, c.loc.end.offset as int) == seq!['/', '*']
        },
        ParseError::UnexpectedEof(u) => {
            &&& loc_in_src(src, u.loc)
            &&& u.loc.start.offset == src.len()
        },
    }
}

/// The spans of the error lie in the named file.
pub open spec fn parse_error_in_file(file: FileName, e: ParseError) -> bool {
    match e {
        ParseError::UnexpectedChar(u) => u.loc.start.file == file,
        ParseError::ExtraCommentClose(x) => x.loc.start.file == file,
        ParseError::HeadingTooDeep(h) => h.loc.start.file == file,
        ParseError::NewlineInAttrs(n) => n.attr_start_loc.start.file == file
            && n.newline_loc.start.file == file,
        ParseError::UnterminatedComment(c) => c.loc.start.file == file,
        ParseError::UnexpectedEof(u) => u.loc.start.file == file,
    }
}

pub open spec fn parse_error_ok(src: Seq<char>, file: FileName, e: ParseError) -> bool {
    &&& parse_error_at(src, e)
    &&& parse_error_in_file(file, e)
}

/// What `ParseError::log` needs of the spans it annotates.
pub open spec fn error_log_ready(e: ParseError) -> bool {
    match e {
        ParseError::NewlineInAttrs(n) => {
            &&& n.attr_start_loc.wf()
            &&& n.newline_loc.wf()
            &&& n.attr_start_loc.start.file == n.newline_loc.start.file
        },
        _ => true,
    }
}

/// An error that points into a file's text can always be logged.
pub proof fn lemma_error_ok_log_ready(src: Seq<char>, file: FileName, e: ParseError)
    requires
        parse_error_ok(src, file, e),
    ensures
        error_log_ready(e),
{
}

impl ParseError {
    /// The structured diagnostic for this violation.
    pub fn log(self) -> (r: Log)
        requires
            error_log_ready(self),
        ensures
            r.srcs@.len() == 1,
    {
        match self {
            ParseError::UnexpectedChar(m) => m.log(),
            ParseError::ExtraCommentClose(m) => m.log(),
            ParseError::HeadingTooDeep(m) => m.log(),
            ParseError::NewlineInAttrs(m) => m.log(),
            ParseError::UnterminatedComment(m) => m.log(),
            ParseError::UnexpectedEof(m) => m.log(),
        }
    }
}

// ---------------------------------------------------------------------
// Character classes
// ---------------------------------------------------------------------

fn ws_char(c: char) -> (r: bool)
    ensures
        r == is_ws_char(c),
{
    c == ' ' || c == '\t' || c == '\n' || c == '\r'
}

fn inline_ws_char(c: char) -> (r: bool)
    ensures
        r == is_inline_ws_char(c),
{
    c == ' ' || c == '\t' || c == '\r'
}

fn word_char(c: char) -> (r: bool)
    ensures
        r == is_word_char(c),
{
    !(c == '.' || c == '/' || c == '*' || c == '_' || c == '`' || c == '=' || c == '~' || c == '-'
        || c == '!' || c == '#' || c == '@' || c == '&' || c == '{' || c == '}' || c == '['
        || c == ']' || c == ':' || c == ' ' || c == '\t' || c == '\n' || c == '\r')
}

fn ident_char(c: char) -> (r: bool)
    ensures
        r == is_ident_char(c),
{
    ('a' <= c && c <= 'z') || ('A' <= c && c <= 'Z') || ('0' <= c && c <= '9') || c == '-'
        || c == '_'
}

// ---------------------------------------------------------------------
// The standard bundle a token production guarantees
// ---------------------------------------------------------------------

/// Some text was consumed, the node's span is exactly the consumed
/// stretch, and the node reproduces it (`content_ok`).
pub open spec fn parsed_node_ok<'i>(pre: Scanner<'i>, post: Scanner<'i>, c: Content) -> bool {
    &&& pre.pos < post.pos <= post.len
    &&& content_loc(c).start == pre.spec_point()
    &&& content_loc(c).end == post.spec_point()
    &&& content_ok(pre.src@, pre.file@, c)
}

// ---------------------------------------------------------------------
// Error constructors
// ---------------------------------------------------------------------

/// An `UnexpectedChar` diagnostic at the cursor's character, consuming
/// it.
fn err_unexpected_here(s: &mut Scanner) -> (e: ParseError)
    requires
        old(s).wf(),
        old(s).pos < old(s).len,
    ensures
        final(s).wf(),
        final(s).same_doc(old(s)),
        final(s).src == old(s).src,
        parse_error_ok(old(s).src@, old(s).file, e),
        e matches ParseError::UnexpectedChar(u) && u.loc.start.offset == old(s).pos && u.found
            == old(s).src@[old(s).pos as int],
{
    let p0 = s.point();
    let c = match s.peek(0) {
        Some(c) => c,
        None => ' ',  // unreachable: the cursor is not at the end
    };
    s.bump();
    let loc = s.loc_from(&p0);
    proof {
        assert(s.src@.subrange(p0.offset as int, s.pos as int) =~= seq![c]);
    }
    ParseError::UnexpectedChar(UnexpectedChar::new(loc, c))
}

/// An `UnexpectedEof` diagnostic at the end of input.
fn err_eof_here(s: &Scanner) -> (e: ParseError)
    requires
        s.wf(),
        s.pos == s.len,
    ensures
        parse_error_ok(s.src@, s.file, e),
        e is UnexpectedEof,
{
    let p = s.point();
    let loc = Location::new(&p, &p);
    ParseError::UnexpectedEof(UnexpectedEof::new(loc))
}

// ---------------------------------------------------------------------
// Leaf productions
// ---------------------------------------------------------------------

/// A maximal run of word characters.
#[verifier::loop_isolation(false)]
fn parse_word(s: &mut Scanner) -> (c: Content)
    requires
        old(s).wf(),
        old(s).pos < old(s).len,
        is_word_char(old(s).src@[old(s).pos as int]),
    ensures
        final(s).wf(),
        final(s).same_doc(old(s)),
        final(s).src == old(s).src,
        parsed_node_ok(*old(s), *final(s), c),
        c is Word,
        final(s).pos == final(s).len || !is_word_char(old(s).src@[final(s).pos as int]),
        forall|k: int|
            old(s).pos <= k < final(s).pos ==> is_word_char(#[trigger] old(s).src@[k]),
{
    let start = s.point();
    let start_pos = s.pos;
    s.bump();
    loop
        invariant
            s.wf(),
            s.same_doc(old(s)),
            s.src == old(s).src,
            start_pos < s.pos <= s.len,
            start == old(s).spec_point(),
            start_pos == old(s).pos,
            forall|k: int| start_pos <= k < s.pos ==> is_word_char(#[trigger] s.src@[k]),
        decreases s.len - s.pos,
    {
        match s.peek(0) {
            Some(c2) => {
                if word_char(c2) {
                    s.bump();
                } else {
                    break;
                }
            },
            None => {
                break;
            },
        }
    }
    let word = s.text_from(start_pos);
    let loc = s.loc_from(&start);
    Content::Word { word, loc }
}

/// A maximal run of spacing characters, line breaks included.
fn parse_ws_top(s: &mut Scanner) -> (c: Content)
    requires
        old(s).wf(),
        old(s).pos < old(s).len,
        is_ws_char(old(s).src@[old(s).pos as int]),
    ensures
        final(s).wf(),
        final(s).same_doc(old(s)),
        final(s).src == old(s).src,
        parsed_node_ok(*old(s), *final(s), c),
        c is Whitespace,
{
    let start = s.point();
    let start_pos = s.pos;
    s.bump();
    loop
        invariant
            s.wf(),
            s.same_doc(old(s)),
            s.src == old(s).src,
            start_pos < s.pos <= s.len,
            start == old(s).spec_point(),
            start_pos == old(s).pos,
            forall|k: int| start_pos <= k < s.pos ==> is_ws_char(#[trigger] s.src@[k]),
        decreases s.len - s.pos,
    {
        match s.peek(0) {
            Some(c2) => {
                if ws_char(c2) {
                    s.bump();
                } else {
                    break;
                }
            },
            None => {
                break;
            },
        }
    }
    let whitespace = s.text_from(start_pos);
    let loc = s.loc_from(&start);
    Content::Whitespace { whitespace, loc }
}

/// A maximal run of spacing characters that stops before a line break.
#[verifier::loop_isolation(false)]
fn parse_ws_inline(s: &mut Scanner) -> (c: Content)
    requires
        old(s).wf(),
        old(s).pos < old(s).len,
        is_inline_ws_char(old(s).src@[old(s).pos as int]),
    ensures
        final(s).wf(),
        final(s).same_doc(old(s)),
        final(s).src == old(s).src,
        parsed_node_ok(*old(s), *final(s), c),
        c is Whitespace,
        final(s).pos == final(s).len || !is_inline_ws_char(old(s).src@[final(s).pos as int]),
        forall|k: int|
            old(s).pos <= k < final(s).pos ==> is_inline_ws_char(#[trigger] old(s).src@[k]),
{
    let start = s.point();
    let start_pos = s.pos;
    s.bump();
    loop
        invariant
            s.wf(),
            s.same_doc(old(s)),
            s.src == old(s).src,
            start_pos < s.pos <= s.len,
            start == old(s).spec_point(),
            start_pos == old(s).pos,
            forall|k: int| start_pos <= k < s.pos ==> is_inline_ws_char(#[trigger] s.src@[k]),
        decreases s.len - s.pos,
    {
        match s.peek(0) {
            Some(c2) => {
                if inline_ws_char(c2) {
                    s.bump();
                } else {
                    break;
                }
            },
            None => {
                break;
            },
        }
    }
    let whitespace = s.text_from(start_pos);
    let loc = s.loc_from(&start);
    Content::Whitespace { whitespace, loc }
}

/// A run of one to three hyphens; a fourth is an error.
fn parse_dash(s: &mut Scanner) -> (r: Result<Content, ParseError>)
    requires
        old(s).wf(),
        old(s).pos < old(s).len,
        old(s).src@[old(s).pos as int] == '-',
    ensures
        final(s).wf(),
        final(s).same_doc(old(s)),
        final(s).src == old(s).src,
        r matches Ok(c) ==> parsed_node_ok(*old(s), *final(s), c) && c is Dash,
        r matches Err(e) ==> parse_error_ok(old(s).src@, old(s).file, e),
{
    let start = s.point();
    let start_pos = s.pos;
    if s.peek_is(1, '-') {
        if s.peek_is(2, '-') {
            if s.peek_is(3, '-') {
                s.bump();
                s.bump();
                s.bump();
                return Err(err_unexpected_here(s));
            }
            s.bump();
            s.bump();
            s.bump();
            let loc = s.loc_from(&start);
            proof {
                assert(s.src@.subrange(start_pos as int, s.pos as int) =~= dash_text(Dash::Em));
            }
            Ok(Content::Dash { dash: Dash::Em, loc })
        } else {
            s.bump();
            s.bump();
            let loc = s.loc_from(&start);
            proof {
                assert(s.src@.subrange(start_pos as int, s.pos as int) =~= dash_text(Dash::En));
            }
            Ok(Content::Dash { dash: Dash::En, loc })
        }
    } else {
        s.bump();
        let loc = s.loc_from(&start);
        proof {
            assert(s.src@.subrange(start_pos as int, s.pos as int) =~= dash_text(Dash::Hyphen));
        }
        Ok(Content::Dash { dash: Dash::Hyphen, loc })
    }
}

/// Glue between words: `~`, `~~`, or a `~` kept raw together with the
/// line break that splits it.
fn parse_glue(s: &mut Scanner) -> (c: Content)
    requires
        old(s).wf(),
        old(s).pos < old(s).len,
        old(s).src@[old(s).pos as int] == '~',
    ensures
        final(s).wf(),
        final(s).same_doc(old(s)),
        final(s).src == old(s).src,
        parsed_node_ok(*old(s), *final(s), c),
        c is Glue || c is SpiltGlue,
{
    let start = s.point();
    let start_pos = s.pos;
    if s.peek_is(1, '~') {
        s.bump();
        s.bump();
        let loc = s.loc_from(&start);
        proof {
            assert(s.src@.subrange(start_pos as int, s.pos as int) =~= glue_text(
                Glue::Nonbreaking,
            ));
        }
        Content::Glue { glue: Glue::Nonbreaking, loc }
    } else if s.peek_is(1, '\n') {
        s.bump();
        s.bump();
        let raw = s.text_from(start_pos);
        let loc = s.loc_from(&start);
        proof {
            assert(raw@ =~= seq!['~', '\n']);
        }
        Content::SpiltGlue { raw, loc }
    } else {
        s.bump();
        let loc = s.loc_from(&start);
        proof {
            assert(s.src@.subrange(start_pos as int, s.pos as int) =~= glue_text(Glue::Tight));
        }
        Content::Glue { glue: Glue::Tight, loc }
    }
}

/// A verbatim span between two `!` marks, on one line.
fn parse_verbatim(s: &mut Scanner) -> (r: Result<Content, ParseError>)
    requires
        old(s).wf(),
        old(s).pos < old(s).len,
        old(s).src@[old(s).pos as int] == '!',
    ensures
        final(s).wf(),
        final(s).same_doc(old(s)),
        final(s).src == old(s).src,
        r matches Ok(c) ==> parsed_node_ok(*old(s), *final(s), c) && c is Verbatim,
        r matches Err(e) ==> parse_error_ok(old(s).src@, old(s).file, e),
{
    let start = s.point();
    let start_pos = s.pos;
    s.bump();
    let inner_start = s.pos;
    loop
        invariant
            s.wf(),
            s.same_doc(old(s)),
            s.src == old(s).src,
            start_pos < inner_start <= s.pos <= s.len,
            start == old(s).spec_point(),
            start_pos == old(s).pos,
            inner_start == start_pos + 1,
            s.src@[start_pos as int] == '!',
            forall|k: int| inner_start <= k < s.pos ==> s.src@[k] != '\n' && s.src@[k] != '!',
        decreases s.len - s.pos,
    {
        match s.peek(0) {
            None => {
                return Err(err_eof_here(s));
            },
            Some(c2) => {
                if c2 == '!' {
                    let verbatim = s.text_from(inner_start);
                    let ghost end_inner = s.pos as int;
                    s.bump();
                    let loc = s.loc_from(&start);
                    proof {
                        lemma_subrange_split(
                            s.src@,
                            start_pos as int,
                            inner_start as int,
                            s.pos as int,
                        );
                        lemma_subrange_split(s.src@, inner_start as int, end_inner, s.pos as int);
                        assert(s.src@.subrange(start_pos as int, inner_start as int) =~= seq![
                            '!',
                        ]);
                        assert(s.src@.subrange(end_inner, s.pos as int) =~= seq!['!']);
                        assert(s.src@.subrange(start_pos as int, s.pos as int) =~= seq!['!']
                            + verbatim@ + seq!['!']);
                    }
                    return Ok(Content::Verbatim { verbatim, loc });
                } else if c2 == '\n' {
                    return Err(err_unexpected_here(s));
                } else {
                    s.bump();
                }
            },
        }
    }
}

/// A `//` comment running to the end of the line, the break excluded.
fn parse_line_comment(s: &mut Scanner) -> (c: Content)
    requires
        old(s).wf(),
        old(s).pos + 1 < old(s).len,
        old(s).src@[old(s).pos as int] == '/',
        old(s).src@[old(s).pos + 1] == '/',
    ensures
        final(s).wf(),
        final(s).same_doc(old(s)),
        final(s).src == old(s).src,
        parsed_node_ok(*old(s), *final(s), c),
        c is Comment,
{
    let start = s.point();
    let start_pos = s.pos;
    s.bump();
    s.bump();
    let inner_start = s.pos;
    loop
        invariant
            s.wf(),
            s.same_doc(old(s)),
            s.src == old(s).src,
            start_pos < inner_start <= s.pos <= s.len,
            start == old(s).spec_point(),
            start_pos == old(s).pos,
            inner_start == start_pos + 2,
            forall|k: int| inner_start <= k < s.pos ==> s.src@[k] != '\n',
        decreases s.len - s.pos,
    {
        match s.peek(0) {
            None => {
                break;
            },
            Some(c2) => {
                if c2 == '\n' {
                    break;
                } else {
                    s.bump();
                }
            },
        }
    }
    let comment = s.text_from(inner_start);
    let loc = s.loc_from(&start);
    proof {
        lemma_subrange_split(s.src@, start_pos as int, inner_start as int, s.pos as int);
        assert(s.src@.subrange(start_pos as int, inner_start as int) =~= seq!['/', '/']);
    }
    Content::Comment { comment, loc }
}

/// The bracketed payload of a mark or a reference: text to the closing
/// bracket, on one line.
fn parse_bracketed(s: &mut Scanner, opener: char) -> (r: Result<(String, Location), ParseError>)
    requires
        old(s).wf(),
        old(s).pos < old(s).len,
        old(s).src@[old(s).pos as int] == opener,
    ensures
        final(s).wf(),
        final(s).same_doc(old(s)),
        final(s).src == old(s).src,
        r matches Ok((t, loc)) ==> {
            &&& old(s).pos < final(s).pos <= final(s).len
            &&& loc.start == old(s).spec_point()
            &&& loc.end == final(s).spec_point()
            &&& loc.wf()
            &&& old(s).src@.subrange(old(s).pos as int, final(s).pos as int) == seq![
                opener,
                '[',
            ] + t@ + seq![']']
            &&& forall|j: int| 0 <= j < t@.len() ==> t@[j] != ']' && t@[j] != '\n'
        },
        r matches Err(e) ==> parse_error_ok(old(s).src@, old(s).file, e),
{
    let start = s.point();
    let start_pos = s.pos;
    s.bump();
    match s.peek(0) {
        None => {
            return Err(err_eof_here(s));
        },
        Some(c2) => {
            if c2 != '[' {
                return Err(err_unexpected_here(s));
            }
        },
    }
    s.bump();
    let inner_start = s.pos;
    loop
        invariant
            s.wf(),
            s.same_doc(old(s)),
            s.src == old(s).src,
            start_pos + 2 == inner_start,
            inner_start <= s.pos <= s.len,
            start == old(s).spec_point(),
            start_pos == old(s).pos,
            old(s).src@[start_pos as int] == opener,
            old(s).src@[start_pos + 1] == '[',
            forall|k: int| inner_start <= k < s.pos ==> s.src@[k] != ']' && s.src@[k] != '\n',
        decreases s.len - s.pos,
    {
        match s.peek(0) {
            None => {
                return Err(err_eof_here(s));
            },
            Some(c2) => {
                if c2 == ']' {
                    let inner = s.text_from(inner_start);
                    let ghost end_inner = s.pos as int;
                    s.bump();
                    let loc = s.loc_from(&start);
                    proof {
                        lemma_subrange_split(
                            s.src@,
                            start_pos as int,
                            inner_start as int,
                            s.pos as int,
                        );
                        lemma_subrange_split(s.src@, inner_start as int, end_inner, s.pos as int);
                        assert(s.src@.subrange(start_pos as int, inner_start as int) =~= seq![
                            opener,
                            '[',
                        ]);
                        assert(s.src@.subrange(end_inner, s.pos as int) =~= seq![']']);
                    }
                    return Ok((inner, loc));
                } else if c2 == '\n' {
                    return Err(err_unexpected_here(s));
                } else {
                    s.bump();
                }
            },
        }
    }
}

/// An `@[...]` mark.
fn parse_mark(s: &mut Scanner) -> (r: Result<Content, ParseError>)
    requires
        old(s).wf(),
        old(s).pos < old(s).len,
        old(s).src@[old(s).pos as int] == '@',
    ensures
        final(s).wf(),
        final(s).same_doc(old(s)),
        final(s).src == old(s).src,
        r matches Ok(c) ==> parsed_node_ok(*old(s), *final(s), c) && (c matches Content::Sugar(g)
            && g is Mark),
        r matches Err(e) ==> parse_error_ok(old(s).src@, old(s).file, e),
{
    match parse_bracketed(s, '@') {
        Ok((mark, loc)) => Ok(Content::Sugar(Sugar::Mark { mark, loc })),
        Err(e) => Err(e),
    }
}

/// An `&[...]` reference.
fn parse_reference(s: &mut Scanner) -> (r: Result<Content, ParseError>)
    requires
        old(s).wf(),
        old(s).pos < old(s).len,
        old(s).src@[old(s).pos as int] == '&',
    ensures
        final(s).wf(),
        final(s).same_doc(old(s)),
        final(s).src == old(s).src,
        r matches Ok(c) ==> parsed_node_ok(*old(s), *final(s), c) && (c matches Content::Sugar(g)
            && g is Reference),
        r matches Err(e) ==> parse_error_ok(old(s).src@, old(s).file, e),
{
    match parse_bracketed(s, '&') {
        Ok((reference, loc)) => Ok(Content::Sugar(Sugar::Reference { reference, loc })),
        Err(e) => Err(e),
    }
}

/// The `#!` directive on the very first line.
fn parse_shebang(s: &mut Scanner) -> (c: Content)
    requires
        old(s).wf(),
        old(s).pos == 0,
        old(s).len > 1,
        old(s).src@[0] == '#',
        old(s).src@[1] == '!',
    ensures
        final(s).wf(),
        final(s).same_doc(old(s)),
        final(s).src == old(s).src,
        parsed_node_ok(*old(s), *final(s), c),
        c is Shebang,
{
    let start = s.point();
    s.bump();
    s.bump();
    let inner_start = s.pos;
    loop
        invariant
            s.wf(),
            s.same_doc(old(s)),
            s.src == old(s).src,
            inner_start == 2,
            2 <= s.pos <= s.len,
            start == old(s).spec_point(),
            forall|k: int| 2 <= k < s.pos ==> s.src@[k] != '\n',
        decreases s.len - s.pos,
    {
        match s.peek(0) {
            None => {
                break;
            },
            Some(c2) => {
                if c2 == '\n' {
                    break;
                } else {
                    s.bump();
                }
            },
        }
    }
    let text = s.text_from(inner_start);
    let loc = s.loc_from(&start);
    proof {
        lemma_subrange_split(s.src@, 0, 2, s.pos as int);
        assert(s.src@.subrange(0, 2) =~= seq!['#', '!']);
    }
    Content::Shebang { text, loc }
}

// ---------------------------------------------------------------------
// Nested block comments
// ---------------------------------------------------------------------

/// Where the block comment that is open just before `i`, together with
/// `d - 1` more enclosing ones, closes: the index just past the `*/`
/// matching the outermost, or nothing when the input ends first.
pub open spec fn mlc_end(src: Seq<char>, i: int, d: nat) -> Option<int>
    decreases src.len() - i,
{
    if !(0 <= i < src.len()) {
        None
    } else if src[i] == '*' && i + 1 < src.len() && src[i + 1] == '/' {
        if d <= 1 {
            Some(i + 2)
        } else {
            mlc_end(src, i + 2, (d - 1) as nat)
        }
    } else if src[i] == '/' && i + 1 < src.len() && src[i + 1] == '*' {
        mlc_end(src, i + 2, d + 1)
    } else {
        mlc_end(src, i + 1, d)
    }
}

/// A close found by the scan lies ahead of it, within the text.
pub proof fn lemma_mlc_end_advances(src: Seq<char>, i: int, d: nat)
    ensures
        mlc_end(src, i, d) matches Some(j) ==> i + 2 <= j <= src.len(),
    decreases src.len() - i,
{
    if 0 <= i < src.len() {
        if src[i] == '*' && i + 1 < src.len() && src[i + 1] == '/' {
            if d > 1 {
                lemma_mlc_end_advances(src, i + 2, (d - 1) as nat);
            }
        } else if src[i] == '/' && i + 1 < src.len() && src[i + 1] == '*' {
            lemma_mlc_end_advances(src, i + 2, d + 1);
        } else {
            lemma_mlc_end_advances(src, i + 1, d);
        }
    }
}

/// Scanning under one more enclosing comment first closes the inner
/// one, then goes on from there.
pub proof fn lemma_mlc_end_split(src: Seq<char>, i: int, d: nat)
    requires
        d >= 1,
    ensures
        mlc_end(src, i, d + 1) == (match mlc_end(src, i, 1) {
            Some(j) => mlc_end(src, j, d),
            None => None::<int>,
        }),
    decreases src.len() - i,
{
    if !(0 <= i < src.len()) {
    } else if src[i] == '*' && i + 1 < src.len() && src[i + 1] == '/' {
    } else if src[i] == '/' && i + 1 < src.len() && src[i + 1] == '*' {
        lemma_mlc_end_split(src, i + 2, d + 1);
        lemma_mlc_end_split(src, i + 2, 1);
        lemma_mlc_end_advances(src, i + 2, 1);
        match mlc_end(src, i + 2, 1) {
            Some(j) => {
                lemma_mlc_end_split(src, j, d);
            },
            None => {},
        }
    } else {
        lemma_mlc_end_split(src, i + 1, d);
    }
}

/// The body of a block comment, after its `/*`: literal stretches,
/// line breaks and balanced nested comments, up to and including the
/// matching `*/`. Reaching the end of input first is the unterminated
/// diagnostic, pointed at the still-open `/*`.
#[verifier::loop_isolation(false)]
fn parse_mlc_body(s: &mut Scanner, open_loc: &Location) -> (r: Result<
    MultiLineComment,
    ParseError,
>)
    requires
        old(s).wf(),
        open_loc.wf(),
        open_loc.start.file == old(s).file,
        open_loc.end.offset <= old(s).len,
        old(s).src@.subrange(open_loc.start.offset as int, open_loc.end.offset as int) == seq![
            '/',
            '*',
        ],
    ensures
        final(s).wf(),
        final(s).same_doc(old(s)),
        final(s).src == old(s).src,
        r matches Ok(m) ==> old(s).pos <= final(s).pos <= final(s).len && old(s).src@.subrange(
            old(s).pos as int,
            final(s).pos as int,
        ) == mlc_text(m) + seq!['*', '/'],
        r matches Ok(m) ==> mlc_end(old(s).src@, old(s).pos as int, 1) == Some(
            final(s).pos as int,
        ),
        r matches Ok(m) ==> mlc_ok(m),
        r matches Err(e) ==> parse_error_ok(old(s).src@, old(s).file, e) && e
            is UnterminatedComment && mlc_end(old(s).src@, old(s).pos as int, 1) is None,
    decreases s.len - s.pos, 0int,
{
    let mut parts: Vec<MultiLineCommentPart> = Vec::new();
    let entry_pos = s.pos;
    loop
        invariant
            s.wf(),
            s.same_doc(old(s)),
            s.src == old(s).src,
            old(s).pos == entry_pos <= s.pos <= s.len,
            s.src@.subrange(entry_pos as int, s.pos as int) == mlc_parts_text(parts@),
            mlc_end(s.src@, entry_pos as int, 1) == mlc_end(s.src@, s.pos as int, 1),
            mlc_parts_ok(parts@),
            open_loc.wf(),
            open_loc.start.file == s.file,
            open_loc.end.offset <= s.len,
            s.src@.subrange(open_loc.start.offset as int, open_loc.end.offset as int) == seq![
                '/',
                '*',
            ],
        decreases s.len - s.pos,
    {
        match s.peek(0) {
            None => {
                return Err(
                    ParseError::UnterminatedComment(UnterminatedComment::new(open_loc.clone())),
                );
            },
            Some(c) => {
                if c == '*' && s.peek_is(1, '/') {
                    let ghost before = s.pos as int;
                    s.bump();
                    s.bump();
                    proof {
                        lemma_subrange_split(s.src@, entry_pos as int, before, s.pos as int);
                        assert(s.src@.subrange(before, s.pos as int) =~= seq!['*', '/']);
                    }
                    return Ok(MultiLineComment(parts));
                } else if c == '/' && s.peek_is(1, '*') {
                    let nstart = s.point();
                    let nsp = s.pos;
                    s.bump();
                    s.bump();
                    let nested_open = s.loc_from(&nstart);
                    proof {
                        assert(s.src@.subrange(nsp as int, s.pos as int) =~= seq!['/', '*']);
                        lemma_mlc_end_split(s.src@, nsp + 2, 1);
                    }
                    match parse_mlc_body(s, &nested_open) {
                        Ok(m) => {
                            proof {
                                let part = MultiLineCommentPart::Nested(m);
                                lemma_mlc_parts_text_push(parts@, part);
                                lemma_subrange_split(
                                    s.src@,
                                    entry_pos as int,
                                    nsp as int,
                                    s.pos as int,
                                );
                                lemma_subrange_split(
                                    s.src@,
                                    nsp as int,
                                    nsp + 2,
                                    s.pos as int,
                                );
                                assert(s.src@.subrange(nsp as int, nsp + 2) =~= seq!['/', '*']);
                                assert(s.src@.subrange(entry_pos as int, s.pos as int)
                                    =~= mlc_parts_text(parts@) + mlc_part_text(part));
                            }
                            proof {
                                let part = MultiLineCommentPart::Nested(m);
                                assert forall|i: int|
                                    0 <= i < parts@.push(part).len() implies mlc_part_ok(
                                    #[trigger] parts@.push(part)[i],
                                ) by {
                                    if i < parts@.len() {
                                        assert(parts@.push(part)[i] == parts@[i]);
                                    }
                                }
                            }
                            parts.push(MultiLineCommentPart::Nested(m));
                        },
                        Err(e) => {
                            return Err(e);
                        },
                    }
                } else if c == '\n' {
                    let ghost before = s.pos as int;
                    s.bump();
                    proof {
                        let part = MultiLineCommentPart::Newline;
                        lemma_mlc_parts_text_push(parts@, part);
                        lemma_subrange_split(s.src@, entry_pos as int, before, s.pos as int);
                        assert(s.src@.subrange(before, s.pos as int) =~= seq!['\n']);
                        assert(s.src@.subrange(entry_pos as int, s.pos as int) =~= mlc_parts_text(
                            parts@,
                        ) + mlc_part_text(part));
                    }
                    proof {
                        let part = MultiLineCommentPart::Newline;
                        assert forall|i: int|
                            0 <= i < parts@.push(part).len() implies mlc_part_ok(
                            #[trigger] parts@.push(part)[i],
                        ) by {
                            if i < parts@.len() {
                                assert(parts@.push(part)[i] == parts@[i]);
                            }
                        }
                    }
                    parts.push(MultiLineCommentPart::Newline);
                } else {
                    let tstart = s.pos;
                    s.bump();
                    loop
                        invariant
                            s.wf(),
                            s.same_doc(old(s)),
                            s.src == old(s).src,
                            entry_pos <= tstart < s.pos <= s.len,
                            mlc_end(s.src@, entry_pos as int, 1) == mlc_end(
                                s.src@,
                                s.pos as int,
                                1,
                            ),
                            forall|k: int| tstart <= k < s.pos ==> s.src@[k] != '\n',
                            forall|k: int|
                                tstart <= k < s.pos ==> !(s.src@[k] == '*' && k + 1 < s.len
                                    && s.src@[k + 1] == '/') && !(#[trigger] s.src@[k] == '/' && k
                                    + 1 < s.len && s.src@[k + 1] == '*'),
                        decreases s.len - s.pos,
                    {
                        match s.peek(0) {
                            None => {
                                break;
                            },
                            Some(c2) => {
                                if c2 == '\n' {
                                    break;
                                } else if c2 == '*' && s.peek_is(1, '/') {
                                    break;
                                } else if c2 == '/' && s.peek_is(1, '*') {
                                    break;
                                } else {
                                    s.bump();
                                }
                            },
                        }
                    }
                    let text = s.text_from(tstart);
                    proof {
                        let part = MultiLineCommentPart::Comment(text);
                        lemma_mlc_parts_text_push(parts@, part);
                        lemma_subrange_split(
                            s.src@,
                            entry_pos as int,
                            tstart as int,
                            s.pos as int,
                        );
                        assert(s.src@.subrange(entry_pos as int, s.pos as int) =~= mlc_parts_text(
                            parts@,
                        ) + mlc_part_text(part));
                    }
                    proof {
                        let part = MultiLineCommentPart::Comment(text);
                        assert forall|i: int|
                            0 <= i < parts@.push(part).len() implies mlc_part_ok(
                            #[trigger] parts@.push(part)[i],
                        ) by {
                            if i < parts@.len() {
                                assert(parts@.push(part)[i] == parts@[i]);
                            }
                        }
                    }
                    parts.push(MultiLineCommentPart::Comment(text));
                }
            },
        }
    }
}

/// A `/* ... */` comment, nesting to arbitrary depth: it parses
/// exactly when the opening delimiter has a matching close
/// (`mlc_end`), and the node reproduces the whole commented text.
pub fn parse_mlc(s: &mut Scanner) -> (r: Result<Content, ParseError>)
    requires
        old(s).wf(),
        old(s).pos + 1 < old(s).len,
        old(s).src@[old(s).pos as int] == '/',
        old(s).src@[old(s).pos + 1] == '*',
    ensures
        final(s).wf(),
        final(s).same_doc(old(s)),
        final(s).src == old(s).src,
        r matches Ok(c) ==> parsed_node_ok(*old(s), *final(s), c) && c is MultiLineComment,
        r matches Err(e) ==> parse_error_ok(old(s).src@, old(s).file, e) && e
            is UnterminatedComment,
        r is Ok <==> mlc_end(old(s).src@, old(s).pos + 2, 1) is Some,
    decreases s.len - s.pos, 2int,
{
    let start = s.point();
    let start_pos = s.pos;
    s.bump();
    s.bump();
    let open_loc = s.loc_from(&start);
    proof {
        assert(s.src@.subrange(start_pos as int, s.pos as int) =~= seq!['/', '*']);
    }
    let ghost body_start = s.pos as int;
    match parse_mlc_body(s, &open_loc) {
        Ok(m) => {
            let loc = s.loc_from(&start);
            proof {
                lemma_subrange_split(s.src@, start_pos as int, body_start, s.pos as int);
                assert(s.src@.subrange(start_pos as int, s.pos as int) =~= seq!['/', '*']
                    + mlc_text(m) + seq!['*', '/']);
            }
            Ok(Content::MultiLineComment { content: m, loc })
        },
        Err(e) => Err(e),
    }
}

// ---------------------------------------------------------------------
// Positions of delimiters ahead of the cursor
// ---------------------------------------------------------------------

/// The first index at or after `i` holding `c`, or the text's length if
/// there is none.
pub open spec fn first_from(src: Seq<char>, i: int, c: char) -> int
    decreases src.len() - i,
{
    if !(0 <= i < src.len()) {
        src.len() as int
    } else if src[i] == c {
        i
    } else {
        first_from(src, i + 1, c)
    }
}

pub proof fn lemma_first_from_at(src: Seq<char>, i0: int, j: int, c: char)
    requires
        0 <= i0 <= j < src.len(),
        src[j] == c,
        forall|k: int| i0 <= k < j ==> src[k] != c,
    ensures
        first_from(src, i0, c) == j,
    decreases j - i0,
{
    if i0 < j {
        lemma_first_from_at(src, i0 + 1, j, c);
    }
}

pub proof fn lemma_first_from_lb(src: Seq<char>, i0: int, c: char)
    requires
        0 <= i0 <= src.len(),
    ensures
        first_from(src, i0, c) >= i0,
    decreases src.len() - i0,
{
    if i0 < src.len() && src[i0] != c {
        lemma_first_from_lb(src, i0 + 1, c);
    }
}

pub proof fn lemma_first_from_ge(src: Seq<char>, i0: int, j: int, c: char)
    requires
        0 <= i0 <= j <= src.len(),
        forall|k: int| i0 <= k < j ==> src[k] != c,
    ensures
        first_from(src, i0, c) >= j,
    decreases j - i0,
{
    if i0 < j {
        lemma_first_from_ge(src, i0 + 1, j, c);
    } else {
        lemma_first_from_lb(src, i0, c);
    }
}

pub proof fn lemma_first_from_none(src: Seq<char>, i0: int, c: char)
    requires
        0 <= i0,
        forall|k: int| i0 <= k < src.len() ==> src[k] != c,
    ensures
        first_from(src, i0, c) == src.len(),
    decreases src.len() - i0,
{
    if i0 < src.len() {
        lemma_first_from_none(src, i0 + 1, c);
    }
}

/// The length of the run of `c` starting at `i`.
pub open spec fn run_len(src: Seq<char>, i: int, c: char) -> int
    decreases src.len() - i,
{
    if 0 <= i < src.len() && src[i] == c {
        1 + run_len(src, i + 1, c)
    } else {
        0
    }
}

/// A run never reaches past the end of the text.
pub proof fn lemma_run_len_le(src: Seq<char>, i: int, c: char)
    requires
        0 <= i <= src.len(),
    ensures
        run_len(src, i, c) <= src.len() - i,
    decreases src.len() - i,
{
    if i < src.len() && src[i] == c {
        lemma_run_len_le(src, i + 1, c);
    }
}

pub proof fn lemma_run_len_at(src: Seq<char>, i0: int, j: int, c: char)
    requires
        0 <= i0 <= j <= src.len(),
        forall|k: int| i0 <= k < j ==> src[k] == c,
        j == src.len() || src[j] != c,
    ensures
        run_len(src, i0, c) == j - i0,
    decreases j - i0,
{
    if i0 < j {
        lemma_run_len_at(src, i0 + 1, j, c);
    }
}

/// A plain character: one that only ever continues a word or inline
/// spacing, never opening or closing a construct.
pub open spec fn is_plain_char(c: char) -> bool {
    is_word_char(c) || is_inline_ws_char(c)
}

/// The first index at or after `i` whose character is not plain, or
/// the text's length if all of them are.
pub open spec fn first_nonplain(src: Seq<char>, i: int) -> int
    decreases src.len() - i,
{
    if !(0 <= i < src.len()) {
        src.len() as int
    } else if !is_plain_char(src[i]) {
        i
    } else {
        first_nonplain(src, i + 1)
    }
}

pub proof fn lemma_first_nonplain_bounds(src: Seq<char>, i: int)
    requires
        0 <= i <= src.len(),
    ensures
        i <= first_nonplain(src, i) <= src.len(),
        forall|k: int| i <= k < first_nonplain(src, i) ==> is_plain_char(#[trigger] src[k]),
        first_nonplain(src, i) < src.len() ==> !is_plain_char(src[first_nonplain(src, i)]),
    decreases src.len() - i,
{
    if 0 <= i < src.len() && is_plain_char(src[i]) {
        lemma_first_nonplain_bounds(src, i + 1);
    }
}

/// The first index at or after `i` whose character is not an
/// identifier character, or the text's length if all of them are.
pub open spec fn ident_run_end(src: Seq<char>, i: int) -> int
    decreases src.len() - i,
{
    if !(0 <= i < src.len()) {
        src.len() as int
    } else if !is_ident_char(src[i]) {
        i
    } else {
        ident_run_end(src, i + 1)
    }
}

pub proof fn lemma_ident_run_end_at(src: Seq<char>, i0: int, j: int)
    requires
        0 <= i0 <= j <= src.len(),
        forall|k: int| i0 <= k < j ==> is_ident_char(#[trigger] src[k]),
        j == src.len() || !is_ident_char(src[j]),
    ensures
        ident_run_end(src, i0) == j,
    decreases j - i0,
{
    if i0 < j {
        lemma_ident_run_end_at(src, i0 + 1, j);
    }
}

/// The stop of an inline run never falls on a plain character, so a
/// plain stretch is consumed whole.
pub open spec fn plain_safe_stop(stop: Stop) -> bool {
    match stop {
        Stop::Delim(d) => !is_plain_char(d),
        _ => true,
    }
}

// ---------------------------------------------------------------------
// Attribute lists
// ---------------------------------------------------------------------

/// A bracketed attribute list: items split at commas, each classified
/// named or unnamed by its first `=`. The list closes exactly when a
/// `]` comes before any line break and before the end of the input; a
/// line break first is the newline-in-attributes diagnostic, annotated
/// with both the break and the opening bracket.
#[verifier::loop_isolation(false)]
pub fn parse_attrs(s: &mut Scanner) -> (r: Result<Attrs, ParseError>)
    requires
        old(s).wf(),
        old(s).pos < old(s).len,
        old(s).src@[old(s).pos as int] == '[',
    ensures
        final(s).wf(),
        final(s).same_doc(old(s)),
        final(s).src == old(s).src,
        r matches Ok(a) ==> {
            &&& old(s).pos < final(s).pos <= final(s).len
            &&& a.loc.start == old(s).spec_point()
            &&& a.loc.end == final(s).spec_point()
            &&& attrs_ok(old(s).src@, old(s).file@, a)
        },
        r matches Err(e) ==> parse_error_ok(old(s).src@, old(s).file, e),
        ({
            let nl = first_from(old(s).src@, old(s).pos + 1, '\n');
            let cb = first_from(old(s).src@, old(s).pos + 1, ']');
            &&& (cb < nl) ==> r is Ok && final(s).pos == cb + 1
            &&& (nl < cb) ==> (r matches Err(e) && (e matches ParseError::NewlineInAttrs(n)
                && n.newline_loc.start.offset == nl && n.attr_start_loc.start.offset == old(
                s,
            ).pos))
            &&& (nl == cb) ==> (r matches Err(e) && e is UnexpectedEof)
        }),
{
    let ghost src = old(s).src@;
    let ghost gfile = old(s).file@;
    let open_pt = s.point();
    let open_pos = s.pos;
    s.bump();
    let open_loc = s.loc_from(&open_pt);
    let mut items: Vec<Attr> = Vec::new();
    loop
        invariant
            s.wf(),
            s.same_doc(old(s)),
            s.src == old(s).src,
            src == s.src@,
            gfile == s.file@,
            open_pos == old(s).pos,
            open_pt == old(s).spec_point(),
            open_pos < s.pos <= s.len,
            src[open_pos as int] == '[',
            open_loc.start == open_pt,
            open_loc.end.offset == open_pos + 1,
            open_loc.wf(),
            open_loc.start.file == s.file,
            forall|k: int| open_pos < k < s.pos ==> src[k] != ']' && src[k] != '\n',
            items@.len() == 0 ==> s.pos == open_pos + 1,
            items@.len() > 0 ==> src.subrange(open_pos + 1, s.pos as int) == attr_items_text(
                items@,
            ) + seq![','],
            forall|i: int|
                0 <= i < items@.len() ==> crate::ast::attr_classified(#[trigger] items@[i])
                    && loc_delimits(
                    src,
                    gfile,
                    attr_loc(items@[i]),
                    attr_raw(items@[i]),
                ),
            forall|i: int, j: int|
                0 <= i < items@.len() && 0 <= j < attr_raw(#[trigger] items@[i]).len()
                    ==> #[trigger] attr_raw(items@[i])[j] != ',' && attr_raw(items@[i])[j] != ']'
                    && attr_raw(items@[i])[j] != '\n',
        decreases s.len - s.pos,
    {
        let item_pt = s.point();
        let item_start = s.pos;
        loop
            invariant
                s.wf(),
                s.same_doc(old(s)),
                s.src == old(s).src,
                src == s.src@,
                gfile == s.file@,
                open_pos == old(s).pos,
                open_pt == old(s).spec_point(),
                open_pos < item_start <= s.pos <= s.len,
                src[open_pos as int] == '[',
                open_loc.start == open_pt,
                open_loc.end.offset == open_pos + 1,
                open_loc.wf(),
                open_loc.start.file == s.file,
                item_pt.file == s.file,
                item_pt.offset == item_start,
                forall|k: int| open_pos < k < item_start ==> src[k] != ']' && src[k] != '\n',
                forall|k: int| item_start <= k < s.pos ==> src[k] != ',' && src[k] != ']'
                    && src[k] != '\n',
                items@.len() == 0 ==> item_start == open_pos + 1,
                items@.len() > 0 ==> src.subrange(open_pos + 1, item_start as int)
                    == attr_items_text(items@) + seq![','],
                forall|i: int|
                    0 <= i < items@.len() ==> crate::ast::attr_classified(#[trigger] items@[i])
                        && loc_delimits(
                        src,
                        gfile,
                        attr_loc(items@[i]),
                        attr_raw(items@[i]),
                    ),
                forall|i: int, j: int|
                    0 <= i < items@.len() && 0 <= j < attr_raw(#[trigger] items@[i]).len()
                        ==> #[trigger] attr_raw(items@[i])[j] != ',' && attr_raw(items@[i])[j]
                        != ']' && attr_raw(items@[i])[j] != '\n',
            decreases s.len - s.pos,
        {
            match s.peek(0) {
                None => {
                    proof {
                        lemma_first_from_none(src, open_pos + 1, '\n');
                        lemma_first_from_none(src, open_pos + 1, ']');
                    }
                    return Err(err_eof_here(s));
                },
                Some(c2) => {
                    if c2 == ',' {
                        let raw = s.str_from(item_start);
                        let iloc = s.loc_from(&item_pt);
                        let a = Attr::classify(raw, iloc);
                        proof {
                            lemma_attr_items_text_push(items@, a);
                            lemma_subrange_split(
                                src,
                                open_pos + 1,
                                item_start as int,
                                s.pos as int,
                            );
                        }
                        items.push(a);
                        let ghost before_comma = s.pos as int;
                        s.bump();
                        proof {
                            lemma_subrange_split(src, open_pos + 1, before_comma, s.pos as int);
                            assert(src.subrange(before_comma, s.pos as int) =~= seq![',']);
                            assert(src.subrange(open_pos + 1, s.pos as int) =~= attr_items_text(
                                items@,
                            ) + seq![',']);
                        }
                        break;
                    } else if c2 == ']' {
                        let raw = s.str_from(item_start);
                        let iloc = s.loc_from(&item_pt);
                        let a = Attr::classify(raw, iloc);
                        proof {
                            lemma_attr_items_text_push(items@, a);
                            lemma_subrange_split(
                                src,
                                open_pos + 1,
                                item_start as int,
                                s.pos as int,
                            );
                        }
                        items.push(a);
                        let ghost cbpos = s.pos as int;
                        s.bump();
                        let loc = s.loc_from(&open_pt);
                        let built = Attrs::new(items, loc);
                        proof {
                            lemma_first_from_at(src, open_pos + 1, cbpos, ']');
                            lemma_first_from_ge(src, open_pos + 1, cbpos + 1, '\n');
                            lemma_subrange_split(src, open_pos as int, open_pos + 1, s.pos as int);
                            lemma_subrange_split(src, open_pos + 1, cbpos, s.pos as int);
                            assert(src.subrange(open_pos as int, open_pos + 1) =~= seq!['[']);
                            assert(src.subrange(cbpos, s.pos as int) =~= seq![']']);
                            assert(src.subrange(open_pos + 1, cbpos) =~= attr_items_text(
                                built.spec_attrs()@,
                            ));
                            assert(src.subrange(open_pos as int, s.pos as int) =~= seq!['[']
                                + attr_items_text(built.spec_attrs()@) + seq![']']);
                        }
                        return Ok(built);
                    } else if c2 == '\n' {
                        let nl_pt = s.point();
                        let ghost nlpos = s.pos as int;
                        s.bump();
                        let nl_loc = s.loc_from(&nl_pt);
                        proof {
                            lemma_first_from_at(src, open_pos + 1, nlpos, '\n');
                            assert(src[nlpos] != ']');
                            lemma_first_from_ge(src, open_pos + 1, nlpos + 1, ']');
                            assert(src.subrange(nlpos, s.pos as int) =~= seq!['\n']);
                            assert(src.subrange(open_pos as int, open_pos + 1) =~= seq!['[']);
                        }
                        return Err(
                            ParseError::NewlineInAttrs(NewlineInAttrs::new(open_loc, nl_loc)),
                        );
                    } else {
                        s.bump();
                    }
                },
            }
        }
    }
}

// ---------------------------------------------------------------------
// Inline content runs and their stops
// ---------------------------------------------------------------------

/// What ends an inline run, besides a line break or the end of input.
#[derive(Debug, Clone, Copy, PartialEq, Eq)]
pub enum Stop {
    LineEnd,
    Brace,
    Delim(char),
    Colon,
}

/// A line break always stops an inline run; the rest depends on the
/// surrounding construct.
pub open spec fn run_stops_at(stop: Stop, c: char) -> bool {
    c == '\n' || (match stop {
        Stop::LineEnd => false,
        Stop::Brace => c == '}',
        Stop::Delim(d) => c == d,
        Stop::Colon => c == ':',
    })
}

fn stop_matches(stop: Stop, c: char) -> (r: bool)
    ensures
        r == run_stops_at(stop, c),
{
    if c == '\n' {
        true
    } else {
        match stop {
            Stop::LineEnd => false,
            Stop::Brace => c == '}',
            Stop::Delim(d) => c == d,
            Stop::Colon => c == ':',
        }
    }
}

/// A sequence of inline nodes up to the stop, a line break, or the end
/// of input. The consumed text is exactly the concatenated text of the
/// returned nodes, each of which is well formed.
#[verifier::loop_isolation(false)]
pub fn parse_inline_run(s: &mut Scanner, stop: Stop) -> (r: Result<Vec<Content>, ParseError>)
    requires
        old(s).wf(),
    ensures
        final(s).wf(),
        final(s).same_doc(old(s)),
        final(s).src == old(s).src,
        r matches Ok(cs) ==> {
            &&& old(s).pos <= final(s).pos <= final(s).len
            &&& all_contents_ok(old(s).src@, old(s).file@, cs@)
            &&& contents_text(cs@) == old(s).src@.subrange(old(s).pos as int, final(s).pos as int)
            &&& (final(s).pos == final(s).len || run_stops_at(
                stop,
                old(s).src@[final(s).pos as int],
            ))
        },
        r matches Err(e) ==> parse_error_ok(old(s).src@, old(s).file, e),
        ({
            let np = first_nonplain(old(s).src@, old(s).pos as int);
            (plain_safe_stop(stop) && (np == old(s).src@.len() || run_stops_at(
                stop,
                old(s).src@[np],
            ))) ==> (r is Ok && final(s).pos == np)
        }),
    decreases s.len - s.pos, 3int,
{
    let ghost src = old(s).src@;
    let ghost gfile = old(s).file@;
    let ghost np = first_nonplain(old(s).src@, old(s).pos as int);
    let ghost plain_hyp = plain_safe_stop(stop) && (np == src.len() || run_stops_at(
        stop,
        src[np],
    ));
    proof {
        lemma_first_nonplain_bounds(src, old(s).pos as int);
    }
    let entry_pos = s.pos;
    let mut acc: Vec<Content> = Vec::new();
    loop
        invariant
            s.wf(),
            s.same_doc(old(s)),
            s.src == old(s).src,
            entry_pos <= s.pos <= s.len,
            all_contents_ok(src, gfile, acc@),
            contents_text(acc@) == src.subrange(entry_pos as int, s.pos as int),
            plain_hyp ==> s.pos <= np,
        decreases s.len - s.pos,
    {
        match s.peek(0) {
            None => {
                proof {
                    if plain_hyp {
                        assert(s.pos == s.len);
                        assert(np == src.len());
                    }
                }
                return Ok(acc);
            },
            Some(c) => {
                if stop_matches(stop, c) {
                    proof {
                        if plain_hyp {
                            // a stop character is never plain, so this is the scan's end
                            assert(!is_plain_char(c));
                            assert(s.pos == np);
                        }
                    }
                    return Ok(acc);
                }
                proof {
                    if plain_hyp && s.pos < np {
                        assert(is_plain_char(src[s.pos as int]));
                    }
                    if plain_hyp && s.pos == np {
                        assert(np < src.len() && run_stops_at(stop, src[np]));
                        assert(false);
                    }
                }
                let ghost before = s.pos as int;
                match parse_content_item(s, false) {
                    Ok(item) => {
                        proof {
                            lemma_contents_text_push(acc@, item);
                            lemma_subrange_split(src, entry_pos as int, before, s.pos as int);
                            assert forall|i: int| 0 <= i < acc@.push(item).len() implies content_ok(
                                src,
                                gfile,
                                #[trigger] acc@.push(item)[i],
                            ) by {
                                if i < acc@.len() {
                                    assert(acc@.push(item)[i] == acc@[i]);
                                }
                            }
                        }
                        proof {
                            if plain_hyp {
                                if s.pos > np {
                                    assert(is_plain_char(src[np]));
                                    assert(false);
                                }
                            }
                        }
                        acc.push(item);
                    },
                    Err(e) => {
                        proof {
                            if plain_hyp {
                                assert(false);
                            }
                        }
                        return Err(e);
                    },
                }
            },
        }
    }
}

// ---------------------------------------------------------------------
// Sugar spans
// ---------------------------------------------------------------------

/// Which delimited shorthand form is being read.
#[derive(Debug, Clone, Copy, PartialEq, Eq)]
pub enum SpanKind {
    It,
    Bf,
    Tt,
    Sc,
    Af,
}

/// The closing character an inline run inside the span stops at.
pub open spec fn span_close(k: SpanKind) -> char {
    match k {
        SpanKind::It => '_',
        SpanKind::Bf => '*',
        SpanKind::Tt => '`',
        SpanKind::Sc => '=',
        SpanKind::Af => '=',
    }
}

/// The delimiter is at the cursor.
spec fn span_guard(k: SpanKind, src: Seq<char>, pos: int) -> bool {
    match k {
        SpanKind::It => pos < src.len() && src[pos] == '_',
        SpanKind::Bf => pos < src.len() && src[pos] == '*',
        SpanKind::Tt => pos < src.len() && src[pos] == '`',
        SpanKind::Sc => pos < src.len() && src[pos] == '=',
        SpanKind::Af => pos + 1 < src.len() && src[pos] == '=' && src[pos + 1] == '=',
    }
}

/// A delimited shorthand span: the opening delimiter, an inline run,
/// and the matching closing delimiter on the same line.
#[verifier::loop_isolation(false)]
fn parse_sugar_span(s: &mut Scanner, k: SpanKind) -> (r: Result<Content, ParseError>)
    requires
        old(s).wf(),
        span_guard(k, old(s).src@, old(s).pos as int),
    ensures
        final(s).wf(),
        final(s).same_doc(old(s)),
        final(s).src == old(s).src,
        r matches Ok(c) ==> parsed_node_ok(*old(s), *final(s), c) && c is Sugar,
        r matches Err(e) ==> parse_error_ok(old(s).src@, old(s).file, e),
        ({
            let np = first_nonplain(old(s).src@, old(s).pos + 1);
            (!(k is Af) && np < old(s).src@.len() && old(s).src@[np] == span_close(k)) ==> (r
                matches Ok(c) && c is Sugar && final(s).pos == np + 1)
        }),
    decreases s.len - s.pos, 0int,
{
    let ghost src = old(s).src@;
    let start = s.point();
    let start_pos = s.pos;
    let two = match k {
        SpanKind::Af => true,
        _ => false,
    };
    s.bump();
    if two {
        s.bump();
    }
    let ghost delim_end = s.pos as int;
    let delimiter = s.text_from(start_pos);
    let close = match k {
        SpanKind::It => '_',
        SpanKind::Bf => '*',
        SpanKind::Tt => '`',
        SpanKind::Sc => '=',
        SpanKind::Af => '=',
    };
    let arg = match parse_inline_run(s, Stop::Delim(close)) {
        Ok(cs) => cs,
        Err(e) => {
            return Err(e);
        },
    };
    match s.peek(0) {
        None => {
            return Err(err_eof_here(s));
        },
        Some(c2) => {
            if c2 == '\n' {
                return Err(err_unexpected_here(s));
            }
            let ghost close_start = s.pos as int;
            s.bump();
            if two {
                match s.peek(0) {
                    None => {
                        return Err(err_eof_here(s));
                    },
                    Some(c3) => {
                        if c3 != '=' {
                            return Err(err_unexpected_here(s));
                        }
                    },
                }
                s.bump();
            }
            let loc = s.loc_from(&start);
            proof {
                lemma_subrange_split(src, start_pos as int, delim_end, close_start);
                lemma_subrange_split(src, start_pos as int, close_start, s.pos as int);
            }
            let node = match k {
                SpanKind::It => {
                    proof {
                        assert(src.subrange(start_pos as int, delim_end) =~= seq!['_']);
                        assert(src.subrange(close_start, s.pos as int) =~= seq!['_']);
                        assert(src.subrange(start_pos as int, s.pos as int) =~= delimiter@
                            + contents_text(arg@) + delimiter@);
                    }
                    Sugar::Italic { delimiter, arg, loc }
                },
                SpanKind::Bf => {
                    proof {
                        assert(src.subrange(start_pos as int, delim_end) =~= seq!['*']);
                        assert(src.subrange(close_start, s.pos as int) =~= seq!['*']);
                        assert(src.subrange(start_pos as int, s.pos as int) =~= delimiter@
                            + contents_text(arg@) + delimiter@);
                    }
                    Sugar::Bold { delimiter, arg, loc }
                },
                SpanKind::Tt => {
                    proof {
                        assert(src.subrange(start_pos as int, delim_end) =~= seq!['`']);
                        assert(src.subrange(close_start, s.pos as int) =~= seq!['`']);
                        assert(src.subrange(start_pos as int, s.pos as int) =~= seq!['`']
                            + contents_text(arg@) + seq!['`']);
                    }
                    Sugar::Monospace { arg, loc }
                },
                SpanKind::Sc => {
                    proof {
                        assert(src.subrange(start_pos as int, delim_end) =~= seq!['=']);
                        assert(src.subrange(close_start, s.pos as int) =~= seq!['=']);
                        assert(src.subrange(start_pos as int, s.pos as int) =~= seq!['=']
                            + contents_text(arg@) + seq!['=']);
                    }
                    Sugar::Smallcaps { arg, loc }
                },
                SpanKind::Af => {
                    proof {
                        assert(src.subrange(start_pos as int, delim_end) =~= seq!['=', '=']);
                        assert(src.subrange(close_start, s.pos as int) =~= seq!['=', '=']);
                        assert(src.subrange(start_pos as int, s.pos as int) =~= seq!['=', '=']
                            + contents_text(arg@) + seq!['=', '=']);
                    }
                    Sugar::AlternateFace { arg, loc }
                },
            };
            Ok(Content::Sugar(node))
        },
    }
}

// ---------------------------------------------------------------------
// Command invocations
// ---------------------------------------------------------------------

/// The dot, the optional dotted qualifier and the command name.
#[verifier::loop_isolation(false)]
fn parse_cmd_name(s: &mut Scanner) -> (r: Result<(Option<String>, String), ParseError>)
    requires
        old(s).wf(),
        old(s).pos < old(s).len,
        old(s).src@[old(s).pos as int] == '.',
    ensures
        final(s).wf(),
        final(s).same_doc(old(s)),
        final(s).src == old(s).src,
        r matches Ok(p) ==> {
            &&& old(s).pos < final(s).pos <= final(s).len
            &&& old(s).src@.subrange(old(s).pos as int, final(s).pos as int) == seq!['.'] + (
            match p.0 {
                Some(q) => q@ + seq!['.'],
                None => Seq::<char>::empty(),
            }) + p.1@
            &&& p.1@.len() > 0
            &&& forall|j: int| 0 <= j < p.1@.len() ==> is_ident_char(#[trigger] p.1@[j])
            &&& match p.0 {
                Some(q) => q@.len() > 0 && (forall|j: int|
                    0 <= j < q@.len() ==> is_ident_char(#[trigger] q@[j])),
                None => true,
            }
        },
        r matches Err(e) ==> parse_error_ok(old(s).src@, old(s).file, e),
        ({
            let ie = ident_run_end(old(s).src@, old(s).pos + 1);
            (ie > old(s).pos + 1 && (ie == old(s).src@.len() || old(s).src@[ie] != '.')) ==> (r
                matches Ok(p) && p.0 is None && final(s).pos == ie)
        }),
{
    let ghost src = old(s).src@;
    let start_pos = s.pos;
    s.bump();
    let run1_start = s.pos;
    loop
        invariant
            s.wf(),
            s.same_doc(old(s)),
            s.src == old(s).src,
            run1_start <= s.pos <= s.len,
            forall|k: int| run1_start <= k < s.pos ==> is_ident_char(#[trigger] src[k]),
        decreases s.len - s.pos,
    {
        match s.peek(0) {
            Some(c) => {
                if ident_char(c) {
                    s.bump();
                } else {
                    break;
                }
            },
            None => {
                break;
            },
        }
    }
    let run1_end = s.pos;
    proof {
        lemma_ident_run_end_at(src, run1_start as int, run1_end as int);
    }
    if run1_end > run1_start && s.peek_is(0, '.') {
        let q = s.text_from(run1_start);
        s.bump();
        let name_start = s.pos;
        loop
            invariant
                s.wf(),
                s.same_doc(old(s)),
                s.src == old(s).src,
                name_start <= s.pos <= s.len,
                forall|k: int| name_start <= k < s.pos ==> is_ident_char(#[trigger] src[k]),
            decreases s.len - s.pos,
        {
            match s.peek(0) {
                Some(c) => {
                    if ident_char(c) {
                        s.bump();
                    } else {
                        break;
                    }
                },
                None => {
                    break;
                },
            }
        }
        if s.pos == name_start {
            if s.at_eof() {
                return Err(err_eof_here(s));
            }
            return Err(err_unexpected_here(s));
        }
        let name = s.text_from(name_start);
        proof {
            lemma_subrange_split(src, start_pos as int, run1_start as int, s.pos as int);
            lemma_subrange_split(src, run1_start as int, run1_end as int, s.pos as int);
            lemma_subrange_split(src, run1_end as int, name_start as int, s.pos as int);
            assert(src.subrange(start_pos as int, run1_start as int) =~= seq!['.']);
            assert(src.subrange(run1_end as int, name_start as int) =~= seq!['.']);
            assert(src.subrange(start_pos as int, s.pos as int) =~= seq!['.'] + (q@ + seq!['.'])
                + name@);
        }
        Ok((Some(q), name))
    } else {
        if run1_end == run1_start {
            if s.at_eof() {
                return Err(err_eof_here(s));
            }
            return Err(err_unexpected_here(s));
        }
        let name = s.text_from(run1_start);
        proof {
            lemma_subrange_split(src, start_pos as int, run1_start as int, s.pos as int);
            assert(src.subrange(start_pos as int, run1_start as int) =~= seq!['.']);
            assert(src.subrange(start_pos as int, s.pos as int) =~= seq!['.']
                + Seq::<char>::empty() + name@);
        }
        Ok((None, name))
    }
}

/// A run of plus markers, counted.
#[verifier::loop_isolation(false)]
fn parse_plus_run(s: &mut Scanner) -> (n: usize)
    requires
        old(s).wf(),
    ensures
        final(s).wf(),
        final(s).same_doc(old(s)),
        final(s).src == old(s).src,
        final(s).pos == old(s).pos + n,
        old(s).src@.subrange(old(s).pos as int, final(s).pos as int) == repeat_char(
            '+',
            n as nat,
        ),
        final(s).pos == final(s).len || old(s).src@[final(s).pos as int] != '+',
    decreases s.len - s.pos, 0int,
{
    let ghost src = old(s).src@;
    let entry_pos = s.pos;
    let mut n: usize = 0;
    loop
        invariant
            s.wf(),
            s.same_doc(old(s)),
            s.src == old(s).src,
            entry_pos + n == s.pos,
            s.pos <= s.len,
            forall|k: int| entry_pos <= k < s.pos ==> src[k] == '+',
        decreases s.len - s.pos,
    {
        match s.peek(0) {
            Some(c) => {
                if c == '+' {
                    s.bump();
                    n = n + 1;
                } else {
                    break;
                }
            },
            None => {
                break;
            },
        }
    }
    proof {
        assert(src.subrange(entry_pos as int, s.pos as int) =~= repeat_char('+', n as nat));
    }
    n
}

/// The text an optional remainder argument contributes.
pub open spec fn remainder_text(r: Option<Vec<Content>>) -> Seq<char> {
    match r {
        Some(cs) => seq![':'] + contents_text(cs@),
        None => Seq::<char>::empty(),
    }
}

/// One brace-delimited inline argument group, closed on the line it
/// opens. For a plain stretch after the brace the outcome is decided
/// by what comes first: a `}` closes the group, a line break is the
/// newline-in-attributes diagnostic annotated with both the break and
/// the opening brace.
#[verifier::loop_isolation(false)]
pub fn parse_brace_group(s: &mut Scanner) -> (r: Result<Vec<Content>, ParseError>)
    requires
        old(s).wf(),
        old(s).pos < old(s).len,
        old(s).src@[old(s).pos as int] == '{',
    ensures
        final(s).wf(),
        final(s).same_doc(old(s)),
        final(s).src == old(s).src,
        r matches Ok(cs) ==> {
            &&& old(s).pos < final(s).pos <= final(s).len
            &&& all_contents_ok(old(s).src@, old(s).file@, cs@)
            &&& old(s).src@.subrange(old(s).pos as int, final(s).pos as int) == seq!['{']
                + contents_text(cs@) + seq!['}']
        },
        r matches Err(e) ==> parse_error_ok(old(s).src@, old(s).file, e),
        ({
            let np = first_nonplain(old(s).src@, old(s).pos + 1);
            np < old(s).src@.len() ==> {
                &&& (old(s).src@[np] == '}' ==> r is Ok && final(s).pos == np + 1)
                &&& (old(s).src@[np] == '\n' ==> (r matches Err(e) && (e
                    matches ParseError::NewlineInAttrs(n) && n.attr_start_loc.start.offset == old(
                    s,
                ).pos && n.newline_loc.start.offset == np)))
            }
        }),
    decreases s.len - s.pos, 0int,
{
    let ghost src = old(s).src@;
    let open_pt = s.point();
    let open_pos = s.pos;
    s.bump();
    let open_loc = s.loc_from(&open_pt);
    match parse_inline_run(s, Stop::Brace) {
        Ok(cs) => {
            match s.peek(0) {
                None => Err(err_eof_here(s)),
                Some(c2) => {
                    if c2 == '}' {
                        let ghost cb = s.pos as int;
                        s.bump();
                        proof {
                            lemma_subrange_split(src, open_pos as int, open_pos + 1, s.pos as int);
                            lemma_subrange_split(src, open_pos + 1, cb, s.pos as int);
                            assert(src.subrange(open_pos as int, open_pos + 1) =~= seq!['{']);
                            assert(src.subrange(cb, s.pos as int) =~= seq!['}']);
                            assert(src.subrange(open_pos as int, s.pos as int) =~= seq!['{']
                                + contents_text(cs@) + seq!['}']);
                        }
                        Ok(cs)
                    } else {
                        // the run stops only at a close brace or a line break
                        let nl_pt = s.point();
                        let ghost nlp = s.pos as int;
                        s.bump();
                        let nl_loc = s.loc_from(&nl_pt);
                        proof {
                            assert(src.subrange(nlp, s.pos as int) =~= seq!['\n']);
                            assert(src.subrange(open_pos as int, open_pos + 1) =~= seq!['{']);
                        }
                        Err(ParseError::NewlineInAttrs(NewlineInAttrs::new(open_loc, nl_loc)))
                    }
                },
            }
        },
        Err(e) => Err(e),
    }
}

/// A dot, a non-empty name, then exactly one brace group of plain text
/// closed on the same line, with nothing of the command's own syntax
/// after it: the shape of the simplest command invocation.
pub open spec fn simple_cmd_hyp(src: Seq<char>, pos: int) -> bool {
    let ie = ident_run_end(src, pos + 1);
    let np = first_nonplain(src, ie + 1);
    &&& 0 <= pos < src.len()
    &&& src[pos] == '.'
    &&& ie > pos + 1
    &&& ie < src.len()
    &&& src[ie] == '{'
    &&& np < src.len()
    &&& src[np] == '}'
    &&& (np + 1 == src.len() || (src[np + 1] != '{' && src[np + 1] != ':'))
}

/// What such an invocation parses to: an unqualified command named by
/// the identifier run, with no markers, no attributes, one inline
/// argument group and no line-level arguments.
pub open spec fn simple_cmd_result(src: Seq<char>, pos: int, c: Content) -> bool {
    let ie = ident_run_end(src, pos + 1);
    c matches Content::Command {
        qualifier,
        name,
        pluses,
        attrs,
        inline_args,
        remainder_arg,
        trailer_args,
        ..
    } && qualifier is None && name@ == src.subrange(pos + 1, ie) && pluses == 0 && attrs is None
        && inline_args@.len() == 1 && remainder_arg is None && trailer_args@.len() == 0
}

/// A command invocation: head, inline brace groups, then either one
/// remainder argument or trailer arguments when the command stands at
/// line level.
#[verifier::rlimit(60)]
#[verifier::loop_isolation(false)]
pub fn parse_command(s: &mut Scanner, line_cmds: bool) -> (r: Result<Content, ParseError>)
    requires
        old(s).wf(),
        old(s).pos < old(s).len,
        old(s).src@[old(s).pos as int] == '.',
    ensures
        final(s).wf(),
        final(s).same_doc(old(s)),
        final(s).src == old(s).src,
        r matches Ok(c) ==> parsed_node_ok(*old(s), *final(s), c) && c is Command,
        r matches Err(e) ==> parse_error_ok(old(s).src@, old(s).file, e),
        simple_cmd_hyp(old(s).src@, old(s).pos as int) ==> (r matches Ok(c) && simple_cmd_result(
            old(s).src@,
            old(s).pos as int,
            c,
        ) && final(s).pos == first_nonplain(
            old(s).src@,
            ident_run_end(old(s).src@, old(s).pos + 1) + 1,
        ) + 1),
    decreases s.len - s.pos, 1int,
{
    let ghost src = old(s).src@;
    let ghost gfile = old(s).file@;
    let ghost hyp = simple_cmd_hyp(old(s).src@, old(s).pos as int);
    let ghost h_ie = ident_run_end(old(s).src@, old(s).pos + 1);
    let ghost h_np = first_nonplain(old(s).src@, h_ie + 1);
    let start = s.point();
    let start_pos = s.pos;
    let (qualifier, name) = match parse_cmd_name(s) {
        Ok(p) => p,
        Err(e) => {
            return Err(e);
        },
    };
    let ghost name_end = s.pos as int;
    proof {
        if hyp {
            assert(name_end == h_ie);
            assert(qualifier is None);
            let eqn = src.subrange(start_pos as int, h_ie);
            assert(eqn == seq!['.'] + name@);
            assert(name@.len() == h_ie - start_pos - 1);
            assert forall|k: int| 0 <= k < name@.len() implies name@[k] == src[start_pos + 1
                + k] by {
                assert((seq!['.'] + name@)[k + 1] == name@[k]);
                assert(eqn[k + 1] == src[start_pos + 1 + k]);
            }
            assert(name@ =~= src.subrange(start_pos + 1, h_ie));
        }
    }
    let pluses = parse_plus_run(s);
    let ghost plus_end = s.pos as int;
    proof {
        if hyp && pluses > 0 {
            assert(src.subrange(name_end, plus_end)[0] == src[name_end]);
            assert(false);
        }
    }
    let attrs: Option<Attrs> = if s.peek_is(0, '[') {
        match parse_attrs(s) {
            Ok(a) => Some(a),
            Err(e) => {
                return Err(e);
            },
        }
    } else {
        None
    };
    let head_end = s.pos;
    let invocation_loc = s.loc_from(&start);
    proof {
        lemma_subrange_split(src, start_pos as int, name_end, plus_end);
        lemma_subrange_split(src, start_pos as int, plus_end, head_end as int);
        assert(src.subrange(start_pos as int, head_end as int) =~= command_head_text(
            qualifier,
            name,
            pluses,
            attrs,
        ));
    }
    let mut inline_args: Vec<Vec<Content>> = Vec::new();
    loop
        invariant
            s.wf(),
            s.same_doc(old(s)),
            s.src == old(s).src,
            head_end <= s.pos <= s.len,
            braces_text(inline_args@) == src.subrange(head_end as int, s.pos as int),
            all_groups_ok(src, gfile, inline_args@),
            hyp ==> ((s.pos == h_ie && inline_args@.len() == 0) || (s.pos == h_np + 1
                && inline_args@.len() == 1)),
        decreases s.len - s.pos,
    {
        if s.peek_is(0, '{') {
            let ghost open_pos = s.pos as int;
            match parse_brace_group(s) {
                Ok(cs) => {
                    proof {
                        lemma_braces_text_push(inline_args@, cs);
                        lemma_subrange_split(src, head_end as int, open_pos, s.pos as int);
                        assert(src.subrange(head_end as int, s.pos as int) =~= braces_text(
                            inline_args@,
                        ) + seq!['{'] + contents_text(cs@) + seq!['}']);
                        assert forall|i: int|
                            0 <= i < inline_args@.push(cs).len() implies all_contents_ok(
                            src,
                            gfile,
                            (#[trigger] inline_args@.push(cs)[i])@,
                        ) by {
                            if i < inline_args@.len() {
                                assert(inline_args@.push(cs)[i] == inline_args@[i]);
                            }
                        }
                    }
                    inline_args.push(cs);
                },
                Err(e) => {
                    return Err(e);
                },
            }
        } else {
            break;
        }
    }
    let ghost args_end = s.pos as int;
    proof {
        if hyp {
            assert(s.pos == h_np + 1 && inline_args@.len() == 1);
        }
    }
    let mut remainder_arg: Option<Vec<Content>> = None;
    let mut trailer_args: Vec<Vec<Content>> = Vec::new();
    if line_cmds && s.peek_is(0, ':') {
        if s.peek_is(1, ':') {
            loop
                invariant
                    s.wf(),
                    s.same_doc(old(s)),
                    s.src == old(s).src,
                    args_end <= s.pos <= s.len,
                    trailers_text(trailer_args@) == src.subrange(args_end, s.pos as int),
                    all_groups_ok(src, gfile, trailer_args@),
                    s.pos + 1 < s.len,
                    src[s.pos as int] == ':',
                    src[s.pos + 1] == ':',
                decreases s.len - s.pos,
            {
                let ghost t0 = s.pos as int;
                s.bump();
                s.bump();
                match parse_inline_run(s, Stop::Colon) {
                    Ok(cs) => {
                        proof {
                            lemma_trailers_text_push(trailer_args@, cs);
                            lemma_subrange_split(src, args_end, t0, s.pos as int);
                            lemma_subrange_split(src, t0, t0 + 2, s.pos as int);
                            assert(src.subrange(t0, t0 + 2) =~= seq![':', ':']);
                            assert(src.subrange(args_end, s.pos as int) =~= trailers_text(
                                trailer_args@,
                            ) + seq![':', ':'] + contents_text(cs@));
                            assert forall|i: int|
                                0 <= i < trailer_args@.push(cs).len() implies all_contents_ok(
                                src,
                                gfile,
                                (#[trigger] trailer_args@.push(cs)[i])@,
                            ) by {
                                if i < trailer_args@.len() {
                                    assert(trailer_args@.push(cs)[i] == trailer_args@[i]);
                                }
                            }
                        }
                        trailer_args.push(cs);
                    },
                    Err(e) => {
                        return Err(e);
                    },
                }
                if s.peek_is(0, ':') {
                    if !s.peek_is(1, ':') {
                        return Err(err_unexpected_here(s));
                    }
                } else {
                    break;
                }
            }
        } else {
            let ghost r0 = s.pos as int;
            s.bump();
            match parse_inline_run(s, Stop::LineEnd) {
                Ok(cs) => {
                    proof {
                        lemma_subrange_split(src, r0, r0 + 1, s.pos as int);
                        assert(src.subrange(r0, r0 + 1) =~= seq![':']);
                        assert(src.subrange(args_end, s.pos as int) =~= seq![':'] + contents_text(
                            cs@,
                        ));
                    }
                    remainder_arg = Some(cs);
                },
                Err(e) => {
                    return Err(e);
                },
            }
        }
    }
    proof {
        assert(src.subrange(args_end, s.pos as int) =~= remainder_text(remainder_arg)
            + trailers_text(trailer_args@));
    }
    let loc = s.loc_from(&start);
    let node = Content::Command {
        qualifier,
        name,
        pluses,
        attrs,
        inline_args,
        remainder_arg,
        trailer_args,
        loc,
        invocation_loc,
    };
    proof {
        lemma_subrange_split(src, start_pos as int, head_end as int, args_end);
        lemma_subrange_split(src, start_pos as int, args_end, s.pos as int);
        assert(src.subrange(start_pos as int, s.pos as int) =~= content_text(node));
    }
    Ok(node)
}

/// One inline content item, dispatched by lookahead. Commands read
/// their remainder and trailer arguments only at line level.
pub fn parse_content_item(s: &mut Scanner, line_cmds: bool) -> (r: Result<Content, ParseError>)
    requires
        old(s).wf(),
        old(s).pos < old(s).len,
        old(s).src@[old(s).pos as int] != '\n',
    ensures
        final(s).wf(),
        final(s).same_doc(old(s)),
        final(s).src == old(s).src,
        r matches Ok(c) ==> parsed_node_ok(*old(s), *final(s), c),
        r matches Err(e) ==> parse_error_ok(old(s).src@, old(s).file, e),
        (old(s).pos + 1 < old(s).len && old(s).src@[old(s).pos as int] == '*' && old(s).src@[old(
            s,
        ).pos + 1] == '/') ==> (r matches Err(e) && (e matches ParseError::ExtraCommentClose(x)
            && x.loc.start.offset == old(s).pos)),
        is_word_char(old(s).src@[old(s).pos as int]) ==> (r is Ok && (final(s).pos == final(s).len
            || !is_word_char(old(s).src@[final(s).pos as int]))),
        is_plain_char(old(s).src@[old(s).pos as int]) ==> (r is Ok && (forall|k: int|
            old(s).pos <= k < final(s).pos ==> is_plain_char(#[trigger] old(s).src@[k]))),
        (old(s).pos + 1 < old(s).len && old(s).src@[old(s).pos as int] == '/' && old(s).src@[old(
            s,
        ).pos + 1] == '*') ==> (r is Ok <==> mlc_end(old(s).src@, old(s).pos + 2, 1) is Some),
        simple_cmd_hyp(old(s).src@, old(s).pos as int) ==> (r matches Ok(c) && simple_cmd_result(
            old(s).src@,
            old(s).pos as int,
            c,
        ) && final(s).pos == first_nonplain(
            old(s).src@,
            ident_run_end(old(s).src@, old(s).pos + 1) + 1,
        ) + 1),
        ({
            let np = first_nonplain(old(s).src@, old(s).pos + 1);
            (old(s).src@[old(s).pos as int] == '*' && !(old(s).pos + 1 < old(s).len && old(
                s,
            ).src@[old(s).pos + 1] == '/') && np < old(s).src@.len() && old(s).src@[np] == '*')
                ==> (r matches Ok(c) && c is Sugar && final(s).pos == np + 1)
        }),
    decreases s.len - s.pos, 2int,
{
    let c = match s.peek(0) {
        Some(c) => c,
        None => ' ',  // unreachable: the cursor is not at the end
    };
    if inline_ws_char(c) {
        Ok(parse_ws_inline(s))
    } else if word_char(c) {
        Ok(parse_word(s))
    } else if c == '-' {
        parse_dash(s)
    } else if c == '~' {
        Ok(parse_glue(s))
    } else if c == '!' {
        parse_verbatim(s)
    } else if c == '@' {
        parse_mark(s)
    } else if c == '&' {
        parse_reference(s)
    } else if c == '/' {
        if s.peek_is(1, '/') {
            Ok(parse_line_comment(s))
        } else if s.peek_is(1, '*') {
            parse_mlc(s)
        } else {
            Err(err_unexpected_here(s))
        }
    } else if c == '*' {
        if s.peek_is(1, '/') {
            let p0 = s.point();
            let ghost cp = s.pos as int;
            s.bump();
            s.bump();
            let loc = s.loc_from(&p0);
            proof {
                assert(s.src@.subrange(cp, s.pos as int) =~= seq!['*', '/']);
            }
            Err(ParseError::ExtraCommentClose(ExtraCommentClose::new(loc)))
        } else {
            parse_sugar_span(s, SpanKind::Bf)
        }
    } else if c == '_' {
        parse_sugar_span(s, SpanKind::It)
    } else if c == '`' {
        parse_sugar_span(s, SpanKind::Tt)
    } else if c == '=' {
        if s.peek_is(1, '=') {
            parse_sugar_span(s, SpanKind::Af)
        } else {
            parse_sugar_span(s, SpanKind::Sc)
        }
    } else if c == '.' {
        parse_command(s, line_cmds)
    } else {
        Err(err_unexpected_here(s))
    }
}

// ---------------------------------------------------------------------
// Headings and the whole file
// ---------------------------------------------------------------------

/// A heading at the start of a line: the `#` run sets the level, up to
/// six; a deeper run never becomes a node and always yields the
/// too-deep diagnostic carrying the attempted level.
#[verifier::loop_isolation(false)]
pub fn parse_heading(s: &mut Scanner) -> (r: Result<Content, ParseError>)
    requires
        old(s).wf(),
        old(s).pos < old(s).len,
        old(s).src@[old(s).pos as int] == '#',
    ensures
        final(s).wf(),
        final(s).same_doc(old(s)),
        final(s).src == old(s).src,
        r matches Ok(c) ==> parsed_node_ok(*old(s), *final(s), c),
        r matches Err(e) ==> parse_error_ok(old(s).src@, old(s).file, e),
        ({
            let n = run_len(old(s).src@, old(s).pos as int, '#');
            &&& n > 6 ==> (r matches Err(e) && (e matches ParseError::HeadingTooDeep(h) && h.level
                == n))
            &&& (r matches Ok(c) ==> (c matches Content::Sugar(g) && (g matches Sugar::Heading {
                level,
                ..
            } && level == n)))
        }),
        ({
            let n = run_len(old(s).src@, old(s).pos as int, '#');
            let m = run_len(old(s).src@, old(s).pos + n, '+');
            let np = first_nonplain(old(s).src@, old(s).pos + n + m);
            (n <= 6 && (np == old(s).src@.len() || old(s).src@[np] == '\n')) ==> (r matches Ok(c)
                && (c matches Content::Sugar(g) && (g matches Sugar::Heading { level, .. } && level
                == n)))
        }),
{
    let ghost src = old(s).src@;
    let start = s.point();
    let start_pos = s.pos;
    s.bump();
    let mut n: usize = 1;
    loop
        invariant
            s.wf(),
            s.same_doc(old(s)),
            s.src == old(s).src,
            start_pos + n == s.pos,
            s.pos <= s.len,
            n >= 1,
            forall|k: int| start_pos <= k < s.pos ==> src[k] == '#',
        decreases s.len - s.pos,
    {
        match s.peek(0) {
            Some(c) => {
                if c == '#' {
                    s.bump();
                    n = n + 1;
                } else {
                    break;
                }
            },
            None => {
                break;
            },
        }
    }
    proof {
        lemma_run_len_at(src, start_pos as int, s.pos as int, '#');
        assert(src.subrange(start_pos as int, s.pos as int) =~= repeat_char('#', n as nat));
    }
    if n > 6 {
        let loc = s.loc_from(&start);
        return Err(ParseError::HeadingTooDeep(HeadingTooDeep::new(loc, n)));
    }
    let standoff = s.text_from(start_pos);
    let ghost standoff_end = s.pos as int;
    let pluses = parse_plus_run(s);
    let ghost plus_end = s.pos as int;
    let invocation_loc = s.loc_from(&start);
    proof {
        lemma_subrange_split(src, start_pos as int, standoff_end, plus_end);
        assert(src.subrange(start_pos as int, plus_end) =~= heading_head_text(standoff, pluses));
        assert forall|k: int| standoff_end <= k < plus_end implies src[k] == '+' by {
            assert(src.subrange(standoff_end, plus_end)[k - standoff_end] == src[k]);
        }
        lemma_run_len_at(src, standoff_end, plus_end, '+');
    }
    let arg = match parse_inline_run(s, Stop::LineEnd) {
        Ok(cs) => cs,
        Err(e) => {
            return Err(e);
        },
    };
    let loc = s.loc_from(&start);
    let g = Sugar::Heading { level: n, pluses, standoff, arg, loc, invocation_loc };
    proof {
        lemma_subrange_split(src, start_pos as int, plus_end, s.pos as int);
        assert(src.subrange(start_pos as int, s.pos as int) =~= sugar_text(g));
    }
    Ok(Content::Sugar(g))
}

/// Parses one file's text into its sequence of content nodes, or the
/// single diagnostic of the first grammar violation.
///
/// On success, every node is well formed — its span delimits exactly
/// the text that produced it, its stored texts match their character
/// classes, recursively — and the concatenated reconstruction of the
/// returned nodes is the entire source text.
///
/// Success is owed on stated input families: the empty file, plain
/// prose (word and spacing characters), a lone simple command
/// invocation, and a lone bold span. Failure is owed, with the right
/// diagnostic, for a file opening with a too-deep heading run or a
/// stray comment close.
#[verifier::loop_isolation(false)]
pub fn parse(file_name: &str, content: &str) -> (r: Result<Vec<Content>, ParseError>)
    requires
        content@.len() < usize::MAX,
    ensures
        r matches Ok(cs) ==> all_contents_ok(content@, file_name@, cs@) && contents_text(cs@)
            == content@,
        r matches Err(e) ==> parse_error_at(content@, e) && error_log_ready(e),
        content@.len() == 0 ==> (r matches Ok(cs) && cs@.len() == 0),
        (content@.len() > 0 && (forall|k: int|
            0 <= k < content@.len() ==> is_word_char(#[trigger] content@[k]))) ==> (r matches Ok(
            cs,
        ) && cs@.len() == 1),
        (content@.len() > 0 && content@[0] == '#' && !(content@.len() > 1 && content@[1] == '!')
            && run_len(content@, 0, '#') > 6) ==> (r matches Err(e) && (e
            matches ParseError::HeadingTooDeep(h) && h.level == run_len(content@, 0, '#'))),
        (content@.len() > 1 && content@[0] == '*' && content@[1] == '/') ==> (r matches Err(e)
            && (e matches ParseError::ExtraCommentClose(x) && x.loc.start.offset == 0)),
        (forall|k: int|
            0 <= k < content@.len() ==> is_word_char(#[trigger] content@[k]) || is_ws_char(
                content@[k],
            )) ==> r is Ok,
        (simple_cmd_hyp(content@, 0) && first_nonplain(
            content@,
            ident_run_end(content@, 1) + 1,
        ) + 1 == content@.len()) ==> (r matches Ok(cs) && cs@.len() == 1 && simple_cmd_result(
            content@,
            0,
            cs@[0],
        )),
        ({
            let np = first_nonplain(content@, 1);
            (content@.len() > 0 && content@[0] == '*' && !(content@.len() > 1 && content@[1]
                == '/') && np + 1 == content@.len() && content@[np] == '*') ==> (r matches Ok(cs)
                && cs@.len() == 1 && cs@[0] is Sugar)
        }),
{
    let file = FileName::new(file_name);
    let mut s = Scanner::new(file, content);
    let ghost gf = s.file;
    let mut out: Vec<Content> = Vec::new();
    loop
        invariant
            s.wf(),
            s.src@ == content@,
            s.file == gf,
            s.file@ == file_name@,
            s.len == content@.len(),
            all_contents_ok(content@, file_name@, out@),
            contents_text(out@) == content@.subrange(0, s.pos as int),
            content@.len() == 0 ==> out@.len() == 0,
            (content@.len() > 0 && content@[0] == '#' && !(content@.len() > 1 && content@[1]
                == '!') && run_len(content@, 0, '#') > 6) ==> s.pos == 0,
            (content@.len() > 1 && content@[0] == '*' && content@[1] == '/') ==> s.pos == 0,
            (simple_cmd_hyp(content@, 0) && first_nonplain(
                content@,
                ident_run_end(content@, 1) + 1,
            ) + 1 == content@.len()) ==> ((s.pos == 0 && out@.len() == 0) || (s.pos == s.len
                && out@.len() == 1 && simple_cmd_result(content@, 0, out@[0]))),
            ({
                let np = first_nonplain(content@, 1);
                (content@.len() > 0 && content@[0] == '*' && !(content@.len() > 1 && content@[1]
                    == '/') && np + 1 == content@.len() && content@[np] == '*') ==> ((s.pos == 0
                    && out@.len() == 0) || (s.pos == s.len && out@.len() == 1 && out@[0]
                    is Sugar))
            }),
            (content@.len() > 0 && (forall|k: int|
                0 <= k < content@.len() ==> is_word_char(#[trigger] content@[k]))) ==> ((s.pos == 0
                && out@.len() == 0) || (s.pos == s.len && out@.len() == 1)),
        decreases s.len - s.pos,
    {
        match s.peek(0) {
            None => {
                proof {
                    assert(content@.subrange(0, s.pos as int) =~= content@);
                    lemma_run_len_le(content@, 0, '#');
                }
                return Ok(out);
            },
            Some(c) => {
                let ghost before = s.pos as int;
                proof {
                    if content@.len() > 0 && (forall|k: int|
                        0 <= k < content@.len() ==> is_word_char(#[trigger] content@[k])) {
                        assert(is_word_char(content@[s.pos as int]));
                    }
                    if forall|k: int|
                        0 <= k < content@.len() ==> is_word_char(#[trigger] content@[k])
                            || is_ws_char(content@[k]) {
                        assert(is_word_char(content@[s.pos as int]) || is_ws_char(
                            content@[s.pos as int],
                        ));
                    }
                }
                let item: Content;
                if ws_char(c) {
                    item = parse_ws_top(&mut s);
                } else if c == '#' && s.pos == 0 && s.peek_is(1, '!') {
                    item = parse_shebang(&mut s);
                } else if c == '#' && s.col == 1 {
                    match parse_heading(&mut s) {
                        Ok(h) => {
                            item = h;
                        },
                        Err(e) => {
                            proof {
                                lemma_error_ok_log_ready(content@, gf, e);
                            }
                            return Err(e);
                        },
                    }
                } else {
                    match parse_content_item(&mut s, true) {
                        Ok(i) => {
                            item = i;
                        },
                        Err(e) => {
                            proof {
                                lemma_error_ok_log_ready(content@, gf, e);
                            }
                            return Err(e);
                        },
                    }
                }
                proof {
                    lemma_contents_text_push(out@, item);
                    lemma_subrange_split(content@, 0, before, s.pos as int);
                    assert forall|i: int| 0 <= i < out@.push(item).len() implies content_ok(
                        content@,
                        file_name@,
                        #[trigger] out@.push(item)[i],
                    ) by {
                        if i < out@.len() {
                            assert(out@.push(item)[i] == out@[i]);
                        }
                    }
                }
                out.push(item);
            },
        }
    }
}

} // verus!

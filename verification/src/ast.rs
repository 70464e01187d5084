//! The AST model: the `Content` node family, attribute lists, sugar
//! shorthand forms and nested block comments, each carrying the
//! `Location` of the source text that produced it.
//!
//! `content_text` reconstructs the concrete syntax of a node; a node is
//! well formed (`content_ok`) when the substring of the source delimited
//! by its location is exactly that reconstruction, recursively for every
//! child node.

use vstd::prelude::*;
use crate::location::{FileName, Location, Point};

verus! {

/// A typographic dash: a run of one, two or three hyphen characters.
#[derive(Debug, Clone, Copy, PartialEq, Eq)]
pub enum Dash {
    Hyphen,
    En,
    Em,
}

/// Inter-word glue: a tilde joins its neighbours, a double tilde joins
/// them without allowing a break.
#[derive(Debug, Clone, Copy, PartialEq, Eq)]
pub enum Glue {
    Tight,
    Nonbreaking,
}

/// One node of a parsed document.
#[derive(Debug)]
pub enum Content {
    Shebang { text: String, loc: Location },
    Command {
        qualifier: Option<String>,
        name: String,
        pluses: usize,
        attrs: Option<Attrs>,
        inline_args: Vec<Vec<Content>>,
        remainder_arg: Option<Vec<Content>>,
        trailer_args: Vec<Vec<Content>>,
        loc: Location,
        invocation_loc: Location,
    },
    Sugar(Sugar),
    Word { word: String, loc: Location },
    Whitespace { whitespace: String, loc: Location },
    Dash { dash: Dash, loc: Location },
    Glue { glue: Glue, loc: Location },
    SpiltGlue { raw: String, loc: Location },
    Verbatim { verbatim: String, loc: Location },
    Comment { comment: String, loc: Location },
    MultiLineComment { content: MultiLineComment, loc: Location },
}

/// Shorthand concrete syntax that desugars to a canonical command.
#[derive(Debug)]
pub enum Sugar {
    Italic { delimiter: String, arg: Vec<Content>, loc: Location },
    Bold { delimiter: String, arg: Vec<Content>, loc: Location },
    Monospace { arg: Vec<Content>, loc: Location },
    Smallcaps { arg: Vec<Content>, loc: Location },
    AlternateFace { arg: Vec<Content>, loc: Location },
    Heading {
        level: usize,
        pluses: usize,
        standoff: String,
        arg: Vec<Content>,
        loc: Location,
        invocation_loc: Location,
    },
    Mark { mark: String, loc: Location },
    Reference { reference: String, loc: Location },
}

/// A block comment body: literal stretches, line breaks, and balanced
/// nested block comments to arbitrary depth.
#[derive(Debug)]
pub struct MultiLineComment(pub Vec<MultiLineCommentPart>);

#[derive(Debug)]
pub enum MultiLineCommentPart {
    Newline,
    Comment(String),
    Nested(MultiLineComment),
}

/// A bracketed, ordered list of attributes, with the span of the whole
/// list.
#[derive(Debug, Clone, PartialEq, Eq)]
pub struct Attrs {
    pub attrs: Vec<Attr>,
    pub loc: Location,
}

/// One attribute: named (`key=value`, split at the first `=` of its raw
/// text) or unnamed.
#[derive(Debug, Clone, PartialEq, Eq)]
pub enum Attr {
    Named { eq_idx: usize, raw: String, loc: Location },
    Unnamed { raw: String, loc: Location },
}

// ---------------------------------------------------------------------
// Concrete-syntax reconstruction
// ---------------------------------------------------------------------

/// `n` copies of `c`.
pub open spec fn repeat_char(c: char, n: nat) -> Seq<char> {
    Seq::new(n, |i: int| c)
}

pub open spec fn dash_text(d: Dash) -> Seq<char> {
    match d {
        Dash::Hyphen => seq!['-'],
        Dash::En => seq!['-', '-'],
        Dash::Em => seq!['-', '-', '-'],
    }
}

pub open spec fn glue_text(g: Glue) -> Seq<char> {
    match g {
        Glue::Tight => seq!['~'],
        Glue::Nonbreaking => seq!['~', '~'],
    }
}

pub open spec fn attr_raw(a: Attr) -> Seq<char> {
    match a {
        Attr::Named { raw, .. } => raw@,
        Attr::Unnamed { raw, .. } => raw@,
    }
}

pub open spec fn attr_loc(a: Attr) -> Location {
    match a {
        Attr::Named { loc, .. } => loc,
        Attr::Unnamed { loc, .. } => loc,
    }
}

/// Attribute items joined by commas, as they stood in the source.
pub open spec fn attr_items_text(items: Seq<Attr>) -> Seq<char>
    decreases items.len(),
{
    if items.len() == 0 {
        Seq::empty()
    } else if items.len() == 1 {
        attr_raw(items[0])
    } else {
        attr_raw(items[0]) + seq![','] + attr_items_text(items.subrange(1, items.len() as int))
    }
}

pub open spec fn attrs_text(a: Attrs) -> Seq<char> {
    seq!['['] + attr_items_text(a.spec_attrs()@) + seq![']']
}

/// The head of a command invocation: the dot, the optional dotted
/// qualifier, the name, the plus markers and the optional attribute
/// list.
pub open spec fn command_head_text(
    qualifier: Option<String>,
    name: String,
    pluses: usize,
    attrs: Option<Attrs>,
) -> Seq<char> {
    seq!['.'] + (match qualifier {
        Some(q) => q@ + seq!['.'],
        None => Seq::empty(),
    }) + name@ + repeat_char('+', pluses as nat) + (match attrs {
        Some(a) => attrs_text(a),
        None => Seq::empty(),
    })
}

/// The head of a heading: the standoff run and the plus markers.
pub open spec fn heading_head_text(standoff: String, pluses: usize) -> Seq<char> {
    standoff@ + repeat_char('+', pluses as nat)
}

pub open spec fn content_text(c: Content) -> Seq<char>
    decreases c,
{
    match c {
        Content::Shebang { text, .. } => seq!['#', '!'] + text@,
        Content::Command {
            qualifier, name, pluses, attrs, inline_args, remainder_arg, trailer_args, ..
        } => command_head_text(qualifier, name, pluses, attrs) + braces_text(inline_args@)
            + (match remainder_arg {
            Some(r) => seq![':'] + contents_text(r@),
            None => Seq::empty(),
        }) + trailers_text(trailer_args@),
        Content::Sugar(s) => sugar_text(s),
        Content::Word { word, .. } => word@,
        Content::Whitespace { whitespace, .. } => whitespace@,
        Content::Dash { dash, .. } => dash_text(dash),
        Content::Glue { glue, .. } => glue_text(glue),
        Content::SpiltGlue { raw, .. } => raw@,
        Content::Verbatim { verbatim, .. } => seq!['!'] + verbatim@ + seq!['!'],
        Content::Comment { comment, .. } => seq!['/', '/'] + comment@,
        Content::MultiLineComment { content, .. } => seq!['/', '*'] + mlc_text(content) + seq![
            '*',
            '/',
        ],
    }
}

/// The concrete syntax of a sequence of nodes, in order.
pub open spec fn contents_text(cs: Seq<Content>) -> Seq<char>
    decreases cs,
{
    if cs.len() == 0 {
        Seq::empty()
    } else {
        content_text(cs[0]) + contents_text(cs.subrange(1, cs.len() as int))
    }
}

/// Brace-delimited inline argument groups, in order.
pub open spec fn braces_text(gs: Seq<Vec<Content>>) -> Seq<char>
    decreases gs,
{
    if gs.len() == 0 {
        Seq::empty()
    } else {
        seq!['{'] + contents_text(gs[0]@) + seq!['}'] + braces_text(
            gs.subrange(1, gs.len() as int),
        )
    }
}

/// Trailer argument groups, each introduced by a double colon.
pub open spec fn trailers_text(gs: Seq<Vec<Content>>) -> Seq<char>
    decreases gs,
{
    if gs.len() == 0 {
        Seq::empty()
    } else {
        seq![':', ':'] + contents_text(gs[0]@) + trailers_text(gs.subrange(1, gs.len() as int))
    }
}

pub open spec fn sugar_text(s: Sugar) -> Seq<char>
    decreases s,
{
    match s {
        Sugar::Italic { delimiter, arg, .. } => delimiter@ + contents_text(arg@) + delimiter@,
        Sugar::Bold { delimiter, arg, .. } => delimiter@ + contents_text(arg@) + delimiter@,
        Sugar::Monospace { arg, .. } => seq!['`'] + contents_text(arg@) + seq!['`'],
        Sugar::Smallcaps { arg, .. } => seq!['='] + contents_text(arg@) + seq!['='],
        Sugar::AlternateFace { arg, .. } => seq!['=', '='] + contents_text(arg@) + seq!['=', '='],
        Sugar::Heading { standoff, pluses, arg, .. } => heading_head_text(standoff, pluses)
            + contents_text(arg@),
        Sugar::Mark { mark, .. } => seq!['@', '['] + mark@ + seq![']'],
        Sugar::Reference { reference, .. } => seq!['&', '['] + reference@ + seq![']'],
    }
}

pub open spec fn mlc_text(m: MultiLineComment) -> Seq<char>
    decreases m,
{
    mlc_parts_text(m.0@)
}

pub open spec fn mlc_parts_text(ps: Seq<MultiLineCommentPart>) -> Seq<char>
    decreases ps,
{
    if ps.len() == 0 {
        Seq::empty()
    } else {
        mlc_part_text(ps[0]) + mlc_parts_text(ps.subrange(1, ps.len() as int))
    }
}

pub open spec fn mlc_part_text(p: MultiLineCommentPart) -> Seq<char>
    decreases p,
{
    match p {
        MultiLineCommentPart::Newline => seq!['\n'],
        MultiLineCommentPart::Comment(t) => t@,
        MultiLineCommentPart::Nested(m) => seq!['/', '*'] + mlc_text(m) + seq!['*', '/'],
    }
}

/// A block comment body is made of line breaks, non-empty literal
/// stretches free of line breaks, and well-formed nested comments.
pub open spec fn mlc_ok(m: MultiLineComment) -> bool
    decreases m,
{
    mlc_parts_ok(m.0@)
}

pub open spec fn mlc_parts_ok(ps: Seq<MultiLineCommentPart>) -> bool
    decreases ps,
{
    forall|i: int| 0 <= i < ps.len() ==> mlc_part_ok(#[trigger] ps[i])
}

pub open spec fn mlc_part_ok(p: MultiLineCommentPart) -> bool
    decreases p,
{
    match p {
        MultiLineCommentPart::Newline => true,
        MultiLineCommentPart::Comment(t) => {
            &&& t@.len() > 0
            &&& forall|j: int| 0 <= j < t@.len() ==> t@[j] != '\n'
            &&& forall|j: int|
                0 <= j < t@.len() - 1 ==> !(t@[j] == '*' && t@[j + 1] == '/') && !(#[trigger] t@[j]
                    == '/' && t@[j + 1] == '*')
        },
        MultiLineCommentPart::Nested(m) => mlc_ok(m),
    }
}

// ---------------------------------------------------------------------
// Character classes of the concrete syntax
// ---------------------------------------------------------------------

/// Spacing characters; at the top level a run of them, line breaks
/// included, makes one whitespace node.
pub open spec fn is_ws_char(c: char) -> bool {
    c == ' ' || c == '\t' || c == '\n' || c == '\r'
}

/// Spacing inside a single-line context, where a line break instead
/// ends the run.
pub open spec fn is_inline_ws_char(c: char) -> bool {
    c == ' ' || c == '\t' || c == '\r'
}

/// Characters that open a construct of their own, or are reserved for
/// one; anything else begins or continues a word.
pub open spec fn is_special_char(c: char) -> bool {
    c == '.' || c == '/' || c == '*' || c == '_' || c == '`' || c == '=' || c == '~' || c == '-'
        || c == '!' || c == '#' || c == '@' || c == '&' || c == '{' || c == '}' || c == '['
        || c == ']' || c == ':' || is_ws_char(c)
}

pub open spec fn is_word_char(c: char) -> bool {
    !is_special_char(c)
}

/// Characters of a command name or qualifier: letters, digits, hyphen
/// and underscore.
pub open spec fn is_ident_char(c: char) -> bool {
    ('a' <= c && c <= 'z') || ('A' <= c && c <= 'Z') || ('0' <= c && c <= '9') || c == '-'
        || c == '_'
}

// ---------------------------------------------------------------------
// Well-formedness: spans reproduce the concrete syntax
// ---------------------------------------------------------------------

/// The location cuts `src` (the content of file `file`) and delimits
/// exactly `text`.
pub open spec fn loc_delimits(src: Seq<char>, file: Seq<char>, loc: Location, text: Seq<char>) -> bool {
    &&& loc.wf()
    &&& loc.start.file@ == file
    &&& loc.end.offset <= src.len()
    &&& src.subrange(loc.start.offset as int, loc.end.offset as int) == text
}

pub open spec fn content_loc(c: Content) -> Location {
    match c {
        Content::Shebang { loc, .. } => loc,
        Content::Command { loc, .. } => loc,
        Content::Sugar(s) => sugar_loc(s),
        Content::Word { loc, .. } => loc,
        Content::Whitespace { loc, .. } => loc,
        Content::Dash { loc, .. } => loc,
        Content::Glue { loc, .. } => loc,
        Content::SpiltGlue { loc, .. } => loc,
        Content::Verbatim { loc, .. } => loc,
        Content::Comment { loc, .. } => loc,
        Content::MultiLineComment { loc, .. } => loc,
    }
}

pub open spec fn sugar_loc(s: Sugar) -> Location {
    match s {
        Sugar::Italic { loc, .. } => loc,
        Sugar::Bold { loc, .. } => loc,
        Sugar::Monospace { loc, .. } => loc,
        Sugar::Smallcaps { loc, .. } => loc,
        Sugar::AlternateFace { loc, .. } => loc,
        Sugar::Heading { loc, .. } => loc,
        Sugar::Mark { loc, .. } => loc,
        Sugar::Reference { loc, .. } => loc,
    }
}

/// A named attribute's split index points at the first `=` of its raw
/// text.
pub open spec fn attr_wf(a: Attr) -> bool {
    match a {
        Attr::Named { eq_idx, raw, .. } => {
            &&& eq_idx < raw@.len()
            &&& raw@[eq_idx as int] == '='
            &&& forall|j: int| 0 <= j < eq_idx ==> raw@[j] != '='
        },
        Attr::Unnamed { .. } => true,
    }
}

/// The classification is decided by the text alone: named exactly when
/// the raw text holds an `=`.
pub open spec fn attr_classified(a: Attr) -> bool {
    &&& attr_wf(a)
    &&& match a {
        Attr::Unnamed { raw, .. } => forall|j: int| 0 <= j < raw@.len() ==> raw@[j] != '=',
        Attr::Named { .. } => true,
    }
}

/// Every attribute of the list is well formed — classified named or
/// unnamed by whether its text holds an `=` — its raw text is free of
/// the list's own delimiters, and its span delimits it; the list's own
/// span delimits the whole bracketed list.
pub open spec fn attrs_ok(src: Seq<char>, file: Seq<char>, a: Attrs) -> bool {
    &&& loc_delimits(src, file, a.spec_loc(), attrs_text(a))
    &&& forall|i: int|
        0 <= i < a.spec_attrs()@.len() ==> attr_classified(#[trigger] a.spec_attrs()@[i])
            && loc_delimits(src, file, attr_loc(a.spec_attrs()@[i]), attr_raw(a.spec_attrs()@[i]))
    &&& forall|i: int, j: int|
        0 <= i < a.spec_attrs()@.len() && 0 <= j < attr_raw(#[trigger] a.spec_attrs()@[i]).len()
            ==> #[trigger] attr_raw(a.spec_attrs()@[i])[j] != ',' && attr_raw(a.spec_attrs()@[i])[j]
            != ']' && attr_raw(a.spec_attrs()@[i])[j] != '\n'
}

/// Span correctness, recursively: the substring of `src` delimited by
/// the node's location reproduces exactly the node's concrete syntax,
/// and likewise for every child node.
pub open spec fn content_ok(src: Seq<char>, file: Seq<char>, c: Content) -> bool
    decreases c,
{
    &&& loc_delimits(src, file, content_loc(c), content_text(c))
    &&& match c {
        Content::Command { attrs, inline_args, remainder_arg, trailer_args, loc, invocation_loc, qualifier, name, pluses, .. } => {
            &&& match attrs {
                Some(a) => attrs_ok(src, file, a),
                None => true,
            }
            &&& all_groups_ok(src, file, inline_args@)
            &&& match remainder_arg {
                Some(r) => all_contents_ok(src, file, r@),
                None => true,
            }
            &&& all_groups_ok(src, file, trailer_args@)
            &&& loc_delimits(
                src,
                file,
                invocation_loc,
                command_head_text(qualifier, name, pluses, attrs),
            )
            &&& invocation_loc.start == loc.start
            &&& name@.len() > 0
            &&& forall|j: int| 0 <= j < name@.len() ==> is_ident_char(#[trigger] name@[j])
            &&& match qualifier {
                Some(q) => q@.len() > 0 && (forall|j: int|
                    0 <= j < q@.len() ==> is_ident_char(#[trigger] q@[j])),
                None => true,
            }
        },
        Content::Sugar(s) => sugar_ok(src, file, s),
        Content::Shebang { text, .. } => forall|j: int| 0 <= j < text@.len() ==> text@[j] != '\n',
        Content::Word { word, .. } => word@.len() > 0 && (forall|j: int|
            0 <= j < word@.len() ==> is_word_char(#[trigger] word@[j])),
        Content::Whitespace { whitespace, .. } => whitespace@.len() > 0 && (forall|j: int|
            0 <= j < whitespace@.len() ==> is_ws_char(#[trigger] whitespace@[j])),
        Content::SpiltGlue { raw, .. } => raw@ == seq!['~', '\n'],
        Content::Verbatim { verbatim, .. } => forall|j: int|
            0 <= j < verbatim@.len() ==> verbatim@[j] != '\n' && verbatim@[j] != '!',
        Content::Comment { comment, .. } => forall|j: int|
            0 <= j < comment@.len() ==> comment@[j] != '\n',
        Content::MultiLineComment { content, .. } => mlc_ok(content),
        _ => true,
    }
}

pub open spec fn all_contents_ok(src: Seq<char>, file: Seq<char>, cs: Seq<Content>) -> bool
    decreases cs,
{
    forall|i: int| 0 <= i < cs.len() ==> content_ok(src, file, #[trigger] cs[i])
}

pub open spec fn all_groups_ok(src: Seq<char>, file: Seq<char>, gs: Seq<Vec<Content>>) -> bool
    decreases gs,
{
    forall|i: int| 0 <= i < gs.len() ==> all_contents_ok(src, file, (#[trigger] gs[i])@)
}

pub open spec fn sugar_ok(src: Seq<char>, file: Seq<char>, s: Sugar) -> bool
    decreases s,
{
    match s {
        Sugar::Italic { delimiter, arg, .. } => delimiter@ == seq!['_'] && all_contents_ok(
            src,
            file,
            arg@,
        ),
        Sugar::Bold { delimiter, arg, .. } => delimiter@ == seq!['*'] && all_contents_ok(
            src,
            file,
            arg@,
        ),
        Sugar::Monospace { arg, .. } => all_contents_ok(src, file, arg@),
        Sugar::Smallcaps { arg, .. } => all_contents_ok(src, file, arg@),
        Sugar::AlternateFace { arg, .. } => all_contents_ok(src, file, arg@),
        Sugar::Heading { level, standoff, arg, loc, invocation_loc, pluses, .. } => {
            &&& 1 <= level <= 6
            &&& standoff@ == repeat_char('#', level as nat)
            &&& all_contents_ok(src, file, arg@)
            &&& loc_delimits(src, file, invocation_loc, heading_head_text(standoff, pluses))
            &&& invocation_loc.start == sugar_loc(s).start
        },
        Sugar::Mark { mark, .. } => forall|j: int|
            0 <= j < mark@.len() ==> mark@[j] != ']' && mark@[j] != '\n',
        Sugar::Reference { reference, .. } => forall|j: int|
            0 <= j < reference@.len() ==> reference@[j] != ']' && reference@[j] != '\n',
    }
}

// ---------------------------------------------------------------------
// Attribute lists
// ---------------------------------------------------------------------

impl Attrs {
    pub open spec fn spec_attrs(&self) -> Vec<Attr> {
        self.attrs
    }

    pub open spec fn spec_loc(&self) -> Location {
        self.loc
    }

    pub fn new(attrs: Vec<Attr>, loc: Location) -> (r: Attrs)
        ensures
            r.spec_attrs() == attrs,
            r.spec_loc() == loc,
    {
        Attrs { attrs, loc }
    }

    pub fn args(&self) -> (r: &[Attr])
        ensures
            r@ == self.spec_attrs()@,
    {
        self.attrs.as_slice()
    }

    pub fn loc(&self) -> (r: &Location)
        ensures
            r == self.spec_loc(),
    {
        &self.loc
    }
}

/// Characters stripped from the ends of attribute names and values.
pub open spec fn is_trim_space(c: char) -> bool {
    c == ' ' || c == '\t' || c == '\n' || c == '\r'
}

/// `s` with leading and trailing spacing characters removed.
pub open spec fn trimmed(s: Seq<char>) -> Seq<char>
    decreases s.len(),
{
    if s.len() == 0 {
        s
    } else if is_trim_space(s.first()) {
        trimmed(s.subrange(1, s.len() as int))
    } else if is_trim_space(s.last()) {
        trimmed(s.subrange(0, s.len() - 1))
    } else {
        s
    }
}

/// A subrange whose outside is all spacing and whose ends are not is
/// exactly the trimmed sequence.
proof fn lemma_trimmed_subrange(s: Seq<char>, a: int, b: int)
    requires
        0 <= a <= b <= s.len(),
        forall|i: int| 0 <= i < a ==> is_trim_space(s[i]),
        forall|i: int| b <= i < s.len() ==> is_trim_space(s[i]),
        a < b ==> !is_trim_space(s[a]) && !is_trim_space(s[b - 1]),
    ensures
        trimmed(s) == s.subrange(a, b),
    decreases s.len(),
{
    if s.len() == 0 {
        assert(s.subrange(a, b) =~= s);
    } else if is_trim_space(s.first()) {
        let t = s.subrange(1, s.len() as int);
        if a == 0 {
            // the whole of s is spacing
            assert(b == 0);
            lemma_trimmed_subrange(t, 0, 0);
            assert(s.subrange(0, 0) =~= t.subrange(0, 0));
        } else {
            lemma_trimmed_subrange(t, a - 1, b - 1);
            assert(t.subrange(a - 1, b - 1) =~= s.subrange(a, b));
        }
    } else if is_trim_space(s.last()) {
        let t = s.subrange(0, s.len() - 1);
        // the first character is not spacing, so a == 0 and b < s.len()
        assert(a == 0);
        assert(b < s.len());
        lemma_trimmed_subrange(t, a, b);
        assert(t.subrange(a, b) =~= s.subrange(a, b));
    } else {
        assert(a == 0);
        assert(b == s.len());
        assert(s.subrange(0, s.len() as int) =~= s);
    }
}

/// The first index at or after `from` whose character is not spacing,
/// or `to` if all of them are.
fn scan_spaces_forward(s: &str, from: usize, to: usize) -> (a: usize)
    requires
        from <= to <= s@.len(),
    ensures
        from <= a <= to,
        forall|i: int| from <= i < a ==> is_trim_space(s@[i]),
        a < to ==> !is_trim_space(s@[a as int]),
{
    let mut a = from;
    while a < to
        invariant
            from <= a <= to <= s@.len(),
            forall|i: int| from <= i < a ==> is_trim_space(s@[i]),
        decreases to - a,
    {
        let c = s.get_char(a);
        if !(c == ' ' || c == '\t' || c == '\n' || c == '\r') {
            return a;
        }
        a = a + 1;
    }
    a
}

/// One past the last index before `to`, at or after `from`, whose
/// character is not spacing, or `from` if all of them are.
fn scan_spaces_backward(s: &str, from: usize, to: usize) -> (b: usize)
    requires
        from <= to <= s@.len(),
    ensures
        from <= b <= to,
        forall|i: int| b <= i < to ==> is_trim_space(s@[i]),
        b > from ==> !is_trim_space(s@[b - 1]),
{
    let mut b = to;
    while b > from
        invariant
            from <= b <= to <= s@.len(),
            forall|i: int| b <= i < to ==> is_trim_space(s@[i]),
        decreases b,
    {
        let c = s.get_char(b - 1);
        if !(c == ' ' || c == '\t' || c == '\n' || c == '\r') {
            return b;
        }
        b = b - 1;
    }
    b
}

/// The trimmed middle of `s[from..to]`, as a borrowed slice.
fn trim_range<'a>(s: &'a str, from: usize, to: usize) -> (r: &'a str)
    requires
        from <= to <= s@.len(),
    ensures
        r@ == trimmed(s@.subrange(from as int, to as int)),
{
    let ghost sub = s@.subrange(from as int, to as int);
    let a = scan_spaces_forward(s, from, to);
    let b = scan_spaces_backward(s, a, to);
    proof {
        assert(a < b ==> !is_trim_space(s@[a as int]));
        lemma_trimmed_subrange(sub, a - from, b - from);
        assert(sub.subrange(a - from, b - from) =~= s@.subrange(a as int, b as int));
        assert forall|i: int| 0 <= i < a - from implies is_trim_space(sub[i]) by {
            assert(sub[i] == s@[from + i]);
        }
        assert forall|i: int| b - from <= i < sub.len() implies is_trim_space(sub[i]) by {
            assert(sub[i] == s@[from + i]);
        }
    }
    s.substring_char(a, b)
}

/// The index of the first `=` in `s`, or the length of `s` if there is
/// none.
pub open spec fn first_eq(s: Seq<char>) -> int
    decreases s.len(),
{
    if s.len() == 0 {
        0
    } else if s.first() == '=' {
        0
    } else {
        1 + first_eq(s.subrange(1, s.len() as int))
    }
}

pub proof fn lemma_first_eq_bounds(s: Seq<char>)
    ensures
        0 <= first_eq(s) <= s.len(),
        first_eq(s) < s.len() ==> s[first_eq(s)] == '=',
        forall|j: int| 0 <= j < first_eq(s) ==> s[j] != '=',
    decreases s.len(),
{
    if s.len() > 0 && s.first() != '=' {
        let t = s.subrange(1, s.len() as int);
        lemma_first_eq_bounds(t);
        assert forall|j: int| 0 <= j < first_eq(s) implies s[j] != '=' by {
            if j > 0 {
                assert(s[j] == t[j - 1]);
            }
        }
    }
}

/// If `s[i]` is the first `=`, then `first_eq(s) == i`.
pub proof fn lemma_first_eq_at(s: Seq<char>, i: int)
    requires
        0 <= i < s.len(),
        s[i] == '=',
        forall|j: int| 0 <= j < i ==> s[j] != '=',
    ensures
        first_eq(s) == i,
    decreases s.len(),
{
    if i > 0 {
        lemma_first_eq_at(s.subrange(1, s.len() as int), i - 1);
    }
}

/// If `s` has no `=`, then `first_eq(s) == s.len()`.
pub proof fn lemma_first_eq_none(s: Seq<char>)
    requires
        forall|j: int| 0 <= j < s.len() ==> s[j] != '=',
    ensures
        first_eq(s) == s.len(),
    decreases s.len(),
{
    if s.len() > 0 {
        lemma_first_eq_none(s.subrange(1, s.len() as int));
    }
}

/// The index of the first `=` of `s`, or `s`'s length if there is none.
fn find_eq(s: &str) -> (r: usize)
    ensures
        r == first_eq(s@),
{
    let len = s.unicode_len();
    let mut i: usize = 0;
    while i < len
        invariant
            0 <= i <= len,
            len == s@.len(),
            forall|j: int| 0 <= j < i ==> s@[j] != '=',
        decreases len - i,
    {
        if s.get_char(i) == '=' {
            proof {
                lemma_first_eq_at(s@, i as int);
            }
            return i;
        }
        i = i + 1;
    }
    proof {
        lemma_first_eq_none(s@);
    }
    len
}

impl Attr {
    /// Classifies raw attribute text: `Named` exactly when it contains
    /// an `=`, split at the first one; `Unnamed` otherwise.
    pub fn classify(raw: &str, loc: Location) -> (r: Attr)
        ensures
            attr_wf(r),
            attr_classified(r),
            attr_raw(r) == raw@,
            attr_loc(r) == loc,
            (exists|i: int| 0 <= i < raw@.len() && raw@[i] == '=') <==> r is Named,
            r matches Attr::Named { eq_idx, .. } ==> eq_idx == first_eq(raw@),
    {
        let eq = find_eq(raw);
        proof {
            lemma_first_eq_bounds(raw@);
        }
        if eq < raw.unicode_len() {
            Attr::Named { eq_idx: eq, raw: raw.to_owned(), loc }
        } else {
            Attr::Unnamed { raw: raw.to_owned(), loc }
        }
    }

    /// Builds a named attribute; the raw text must contain an `=`.
    pub fn named(raw: &str, loc: Location) -> (r: Attr)
        requires
            exists|i: int| 0 <= i < raw@.len() && raw@[i] == '=',
        ensures
            attr_wf(r),
            r matches Attr::Named { eq_idx, raw: rr, loc: rl } ==> eq_idx == first_eq(raw@)
                && rr@ == raw@ && rl == loc,
            r is Named,
    {
        let eq = find_eq(raw);
        proof {
            lemma_first_eq_bounds(raw@);
        }
        Attr::Named { eq_idx: eq, raw: raw.to_owned(), loc }
    }

    pub fn unnamed(raw: &str, loc: Location) -> (r: Attr)
        ensures
            attr_wf(r),
            r matches Attr::Unnamed { raw: rr, loc: rl } && rr@ == raw@ && rl == loc,
    {
        Attr::Unnamed { raw: raw.to_owned(), loc }
    }

    /// The trimmed text before the first `=` for a named attribute, the
    /// whole trimmed text for an unnamed one.
    pub fn name(&self) -> (r: &str)
        requires
            attr_wf(*self),
        ensures
            r@ == match *self {
                Attr::Named { eq_idx, raw, .. } => trimmed(raw@.subrange(0, eq_idx as int)),
                Attr::Unnamed { raw, .. } => trimmed(raw@),
            },
    {
        match self {
            Attr::Named { eq_idx, raw, .. } => trim_range(raw.as_str(), 0, *eq_idx),
            Attr::Unnamed { raw, .. } => {
                let r: &str = raw.as_str();
                let l = r.unicode_len();
                let t = trim_range(r, 0, l);
                proof {
                    assert(raw@.subrange(0, raw@.len() as int) =~= raw@);
                }
                t
            },
        }
    }

    /// The trimmed text after the first `=` for a named attribute;
    /// nothing for an unnamed one.
    pub fn value(&self) -> (r: Option<&str>)
        requires
            attr_wf(*self),
        ensures
            match *self {
                Attr::Named { eq_idx, raw, .. } => r matches Some(v) && v@ == trimmed(
                    raw@.subrange(eq_idx + 1, raw@.len() as int),
                ),
                Attr::Unnamed { .. } => r is None,
            },
    {
        match self {
            Attr::Named { eq_idx, raw, .. } => {
                let r: &str = raw.as_str();
                let l = r.unicode_len();
                Some(trim_range(r, *eq_idx + 1, l))
            },
            Attr::Unnamed { .. } => None,
        }
    }

    pub fn loc(&self) -> (r: &Location)
        ensures
            r == attr_loc(*self),
    {
        match self {
            Attr::Named { loc, .. } => loc,
            Attr::Unnamed { loc, .. } => loc,
        }
    }

    /// The raw attribute text, untrimmed.
    pub fn raw(&self) -> (r: &str)
        ensures
            r@ == attr_raw(*self),
    {
        match self {
            Attr::Named { raw, .. } => raw.as_str(),
            Attr::Unnamed { raw, .. } => raw.as_str(),
        }
    }
}

// ---------------------------------------------------------------------
// Sugar call names
// ---------------------------------------------------------------------

/// The canonical command name a sugar form desugars to.
pub open spec fn call_name_spec(s: Sugar) -> Seq<char> {
    match s {
        Sugar::Italic { .. } => seq!['i', 't'],
        Sugar::Bold { .. } => seq!['b', 'f'],
        Sugar::Monospace { .. } => seq!['t', 't'],
        Sugar::Smallcaps { .. } => seq!['s', 'c'],
        Sugar::AlternateFace { .. } => seq!['a', 'f'],
        Sugar::Heading { level, .. } => seq!['h', heading_digit(level as nat)],
        Sugar::Mark { .. } => seq!['m', 'a', 'r', 'k'],
        Sugar::Reference { .. } => seq!['r', 'e', 'f'],
    }
}

/// The digit character for a heading level.
pub open spec fn heading_digit(level: nat) -> char {
    if level == 1 {
        '1'
    } else if level == 2 {
        '2'
    } else if level == 3 {
        '3'
    } else if level == 4 {
        '4'
    } else if level == 5 {
        '5'
    } else {
        '6'
    }
}

/// A heading's level lies between 1 and 6; the grammar rejects anything
/// deeper before a node is built.
pub open spec fn sugar_level_ok(s: Sugar) -> bool {
    s matches Sugar::Heading { level, .. } ==> 1 <= level <= 6
}

impl Sugar {
    /// The canonical command name this shorthand stands for: total and
    /// deterministic over every variant the grammar can build.
    pub fn call_name(&self) -> (r: &'static str)
        requires
            sugar_level_ok(*self),
        ensures
            r@ == call_name_spec(*self),
    {
        proof {
            reveal_strlit("it");
            reveal_strlit("bf");
            reveal_strlit("tt");
            reveal_strlit("sc");
            reveal_strlit("af");
            reveal_strlit("h1");
            reveal_strlit("h2");
            reveal_strlit("h3");
            reveal_strlit("h4");
            reveal_strlit("h5");
            reveal_strlit("h6");
            reveal_strlit("mark");
            reveal_strlit("ref");
        }
        match self {
            Sugar::Italic { .. } => "it",
            Sugar::Bold { .. } => "bf",
            Sugar::Monospace { .. } => "tt",
            Sugar::Smallcaps { .. } => "sc",
            Sugar::AlternateFace { .. } => "af",
            Sugar::Heading { level, .. } => {
                if *level == 1 {
                    "h1"
                } else if *level == 2 {
                    "h2"
                } else if *level == 3 {
                    "h3"
                } else if *level == 4 {
                    "h4"
                } else if *level == 5 {
                    "h5"
                } else {
                    "h6"
                }
            },
            Sugar::Mark { .. } => "mark",
            Sugar::Reference { .. } => "ref",
        }
    }
}

// ---------------------------------------------------------------------
// Reconstruction lemmas: how the text specs grow
// ---------------------------------------------------------------------

/// Appending a node appends its text.
pub proof fn lemma_contents_text_push(cs: Seq<Content>, c: Content)
    ensures
        contents_text(cs.push(c)) == contents_text(cs) + content_text(c),
    decreases cs.len(),
{
    let p = cs.push(c);
    if cs.len() == 0 {
        assert(p[0] == c);
        assert(p.subrange(1, p.len() as int) =~= Seq::<Content>::empty());
        assert(contents_text(Seq::<Content>::empty()) == Seq::<char>::empty());
        assert(contents_text(p) == content_text(c) + Seq::<char>::empty());
        assert(content_text(c) + Seq::<char>::empty() =~= content_text(c));
        assert(contents_text(cs) + content_text(c) =~= content_text(c));
    } else {
        lemma_contents_text_push(cs.subrange(1, cs.len() as int), c);
        assert(p.subrange(1, p.len() as int) =~= cs.subrange(1, cs.len() as int).push(c));
        assert(p[0] == cs[0]);
        assert(contents_text(p) =~= contents_text(cs) + content_text(c));
    }
}

/// Appending an inline group appends its braced text.
pub proof fn lemma_braces_text_push(gs: Seq<Vec<Content>>, g: Vec<Content>)
    ensures
        braces_text(gs.push(g)) == braces_text(gs) + seq!['{'] + contents_text(g@) + seq!['}'],
    decreases gs.len(),
{
    let p = gs.push(g);
    if gs.len() == 0 {
        assert(p[0] == g);
        assert(p.subrange(1, p.len() as int) =~= Seq::<Vec<Content>>::empty());
        assert(braces_text(Seq::<Vec<Content>>::empty()) == Seq::<char>::empty());
        assert(braces_text(p) == seq!['{'] + contents_text(g@) + seq!['}'] + Seq::<char>::empty());
        assert(braces_text(p) =~= braces_text(gs) + seq!['{'] + contents_text(g@) + seq!['}']);
    } else {
        lemma_braces_text_push(gs.subrange(1, gs.len() as int), g);
        assert(p.subrange(1, p.len() as int) =~= gs.subrange(1, gs.len() as int).push(g));
        assert(p[0] == gs[0]);
        assert(braces_text(p) =~= braces_text(gs) + seq!['{'] + contents_text(g@) + seq!['}']);
    }
}

/// Appending a trailer group appends its introduced text.
pub proof fn lemma_trailers_text_push(gs: Seq<Vec<Content>>, g: Vec<Content>)
    ensures
        trailers_text(gs.push(g)) == trailers_text(gs) + seq![':', ':'] + contents_text(g@),
    decreases gs.len(),
{
    let p = gs.push(g);
    if gs.len() == 0 {
        assert(p[0] == g);
        assert(p.subrange(1, p.len() as int) =~= Seq::<Vec<Content>>::empty());
        assert(trailers_text(Seq::<Vec<Content>>::empty()) == Seq::<char>::empty());
        assert(trailers_text(p) == seq![':', ':'] + contents_text(g@) + Seq::<char>::empty());
        assert(trailers_text(p) =~= trailers_text(gs) + seq![':', ':'] + contents_text(g@));
    } else {
        lemma_trailers_text_push(gs.subrange(1, gs.len() as int), g);
        assert(p.subrange(1, p.len() as int) =~= gs.subrange(1, gs.len() as int).push(g));
        assert(p[0] == gs[0]);
        assert(trailers_text(p) =~= trailers_text(gs) + seq![':', ':'] + contents_text(g@));
    }
}

/// Appending an attribute appends its raw text, after a comma when it
/// is not the first.
pub proof fn lemma_attr_items_text_push(items: Seq<Attr>, a: Attr)
    ensures
        attr_items_text(items.push(a)) == (if items.len() == 0 {
            attr_raw(a)
        } else {
            attr_items_text(items) + seq![','] + attr_raw(a)
        }),
    decreases items.len(),
{
    let p = items.push(a);
    if items.len() == 0 {
        assert(attr_items_text(p) =~= attr_raw(a));
    } else if items.len() == 1 {
        assert(p.subrange(1, p.len() as int) =~= Seq::<Attr>::empty().push(a));
        assert(attr_items_text(p.subrange(1, p.len() as int)) == attr_raw(a));
        assert(p[0] == items[0]);
        assert(attr_items_text(p) =~= attr_items_text(items) + seq![','] + attr_raw(a));
    } else {
        lemma_attr_items_text_push(items.subrange(1, items.len() as int), a);
        assert(p.subrange(1, p.len() as int) =~= items.subrange(1, items.len() as int).push(a));
        assert(p[0] == items[0]);
        assert(attr_items_text(p) =~= attr_items_text(items) + seq![','] + attr_raw(a));
    }
}

/// Appending a comment part appends its text.
pub proof fn lemma_mlc_parts_text_push(ps: Seq<MultiLineCommentPart>, p: MultiLineCommentPart)
    ensures
        mlc_parts_text(ps.push(p)) == mlc_parts_text(ps) + mlc_part_text(p),
    decreases ps.len(),
{
    let q = ps.push(p);
    if ps.len() == 0 {
        assert(q[0] == p);
        assert(q.subrange(1, q.len() as int) =~= Seq::<MultiLineCommentPart>::empty());
        assert(mlc_parts_text(Seq::<MultiLineCommentPart>::empty()) == Seq::<char>::empty());
        assert(mlc_parts_text(q) == mlc_part_text(p) + Seq::<char>::empty());
        assert(mlc_part_text(p) + Seq::<char>::empty() =~= mlc_part_text(p));
        assert(mlc_parts_text(ps) + mlc_part_text(p) =~= mlc_part_text(p));
    } else {
        lemma_mlc_parts_text_push(ps.subrange(1, ps.len() as int), p);
        assert(q.subrange(1, q.len() as int) =~= ps.subrange(1, ps.len() as int).push(p));
        assert(q[0] == ps[0]);
        assert(mlc_parts_text(q) =~= mlc_parts_text(ps) + mlc_part_text(p));
    }
}

/// A span splits at any middle position.
pub proof fn lemma_subrange_split(s: Seq<char>, a: int, b: int, c: int)
    requires
        0 <= a <= b <= c <= s.len(),
    ensures
        s.subrange(a, c) == s.subrange(a, b) + s.subrange(b, c),
{
    assert(s.subrange(a, c) =~= s.subrange(a, b) + s.subrange(b, c));
}

/// The call name is a pure mapping: two results for the same sugar value
/// always agree, as each equals `call_name_spec` of that value.
pub proof fn lemma_call_name_deterministic(r1: Seq<char>, r2: Seq<char>, s: Sugar)
    requires
        r1 == call_name_spec(s),
        r2 == call_name_spec(s),
    ensures
        r1 == r2,
{
}

/// For every heading level from 1 to 6, the call name is `h` followed by
/// the matching digit, so the digit's value is exactly the level.
pub proof fn lemma_heading_call_name(s: Sugar)
    requires
        s matches Sugar::Heading { level, .. } && 1 <= level <= 6,
    ensures
        call_name_spec(s).len() == 2,
        call_name_spec(s)[0] == 'h',
        call_name_spec(s)[1] as nat == '0' as nat + (match s {
            Sugar::Heading { level, .. } => level as nat,
            _ => 0,
        }),
{
}

} // verus!

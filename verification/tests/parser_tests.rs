use emblem::ast::{Content, Dash, Glue, MultiLineCommentPart, Sugar};
use emblem::location::FileName;
use emblem::parser::{parse, parse_brace_group, ParseError};
use emblem::scanner::Scanner;

fn parse_ok(src: &str) -> Vec<Content> {
    match parse("test.em", src) {
        Ok(cs) => cs,
        Err(e) => panic!("expected a parse, got {:?}", e.log()),
    }
}

fn parse_err(src: &str) -> ParseError {
    match parse("test.em", src) {
        Ok(cs) => panic!("expected a diagnostic, got {:?}", cs),
        Err(e) => e,
    }
}

#[test]
fn command_with_inline_arg() {
    let nodes = parse_ok(".bf{hello}");
    assert_eq!(nodes.len(), 1);
    match &nodes[0] {
        Content::Command {
            qualifier,
            name,
            pluses,
            attrs,
            inline_args,
            remainder_arg,
            trailer_args,
            ..
        } => {
            assert!(qualifier.is_none());
            assert_eq!(name, "bf");
            assert_eq!(*pluses, 0);
            assert!(attrs.is_none());
            assert_eq!(inline_args.len(), 1);
            assert_eq!(inline_args[0].len(), 1);
            match &inline_args[0][0] {
                Content::Word { word, .. } => assert_eq!(word, "hello"),
                other => panic!("expected a word, got {:?}", other),
            }
            assert!(remainder_arg.is_none());
            assert!(trailer_args.is_empty());
        }
        other => panic!("expected a command, got {:?}", other),
    }
}

#[test]
fn bold_sugar() {
    let nodes = parse_ok("*hello*");
    assert_eq!(nodes.len(), 1);
    match &nodes[0] {
        Content::Sugar(s) => {
            assert_eq!(s.call_name(), "bf");
            match s {
                Sugar::Bold { delimiter, arg, .. } => {
                    assert_eq!(delimiter, "*");
                    assert_eq!(arg.len(), 1);
                    match &arg[0] {
                        Content::Word { word, .. } => assert_eq!(word, "hello"),
                        other => panic!("expected a word, got {:?}", other),
                    }
                }
                other => panic!("expected bold sugar, got {:?}", other),
            }
        }
        other => panic!("expected sugar, got {:?}", other),
    }
}

#[test]
fn heading_too_deep_at_seven() {
    match parse_err("####### deep") {
        ParseError::HeadingTooDeep(h) => {
            assert_eq!(h.level, 7);
            let log = h.log();
            assert_eq!(log.msg, "heading too deep");
            assert_eq!(
                log.srcs[0].annotations[0].text,
                "found heading 7 levels deep"
            );
            assert_eq!(
                log.help.as_deref(),
                Some("headings should be at most 6 levels deep")
            );
        }
        other => panic!("expected the heading diagnostic, got {:?}", other),
    }
}

#[test]
fn heading_levels_match_standoff() {
    for level in 1..=6usize {
        let src = format!("{} title", "#".repeat(level));
        let nodes = parse_ok(&src);
        match &nodes[0] {
            Content::Sugar(s) => match s {
                Sugar::Heading {
                    level: l, standoff, ..
                } => {
                    assert_eq!(*l, level);
                    assert_eq!(standoff, &"#".repeat(level));
                    assert_eq!(s.call_name(), format!("h{level}"));
                }
                other => panic!("expected a heading, got {:?}", other),
            },
            other => panic!("expected sugar, got {:?}", other),
        }
    }
}

#[test]
fn nested_comment_structure() {
    let nodes = parse_ok("/* outer /* inner */ still outer */");
    assert_eq!(nodes.len(), 1);
    match &nodes[0] {
        Content::MultiLineComment { content, .. } => {
            let parts = &content.0;
            assert_eq!(parts.len(), 3);
            match &parts[0] {
                MultiLineCommentPart::Comment(t) => assert_eq!(t, " outer "),
                other => panic!("expected text, got {:?}", other),
            }
            match &parts[1] {
                MultiLineCommentPart::Nested(inner) => {
                    assert_eq!(inner.0.len(), 1);
                    match &inner.0[0] {
                        MultiLineCommentPart::Comment(t) => assert_eq!(t, " inner "),
                        other => panic!("expected text, got {:?}", other),
                    }
                }
                other => panic!("expected a nested comment, got {:?}", other),
            }
            match &parts[2] {
                MultiLineCommentPart::Comment(t) => assert_eq!(t, " still outer "),
                other => panic!("expected text, got {:?}", other),
            }
        }
        other => panic!("expected a block comment, got {:?}", other),
    }
}

#[test]
fn deeply_nested_comments_reconstruct() {
    let depth = 7;
    let mut src = String::new();
    for _ in 0..depth {
        src.push_str("/*a");
    }
    for _ in 0..depth {
        src.push_str("*/");
    }
    let nodes = parse_ok(&src);
    assert_eq!(nodes.len(), 1);
    let mut level = 0;
    let mut current = match &nodes[0] {
        Content::MultiLineComment { content, .. } => content,
        other => panic!("expected a block comment, got {:?}", other),
    };
    loop {
        let nested = current
            .0
            .iter()
            .find_map(|p| match p {
                MultiLineCommentPart::Nested(inner) => Some(inner),
                _ => None,
            });
        match nested {
            Some(inner) => {
                level += 1;
                current = inner;
            }
            None => break,
        }
    }
    assert_eq!(level, depth - 1);
}

#[test]
fn extra_comment_close() {
    match parse_err("*/") {
        ParseError::ExtraCommentClose(x) => {
            assert_eq!(x.loc.start.offset, 0);
            assert_eq!(x.loc.end.offset, 2);
            assert_eq!(x.log().msg, "no comment to close");
        }
        other => panic!("expected the close diagnostic, got {:?}", other),
    }
}

#[test]
fn unterminated_comment() {
    match parse_err("/* never closed") {
        ParseError::UnterminatedComment(c) => {
            assert_eq!(c.loc.start.offset, 0);
            assert_eq!(c.loc.end.offset, 2);
            assert_eq!(c.log().msg, "unterminated comment");
        }
        other => panic!("expected the unterminated diagnostic, got {:?}", other),
    }
}

#[test]
fn newline_in_brace_group() {
    match parse_err(".foo{\n}") {
        ParseError::NewlineInAttrs(n) => {
            assert_eq!(n.attr_start_loc.start.offset, 4);
            assert_eq!(n.newline_loc.start.offset, 5);
            let log = n.log();
            assert_eq!(log.msg, "newline in attributes");
            assert_eq!(log.srcs[0].annotations.len(), 2);
            assert_eq!(log.srcs[0].annotations[0].text, "newline found here");
            assert_eq!(
                log.srcs[0].annotations[1].text,
                "in inline attributes started here"
            );
        }
        other => panic!("expected the newline diagnostic, got {:?}", other),
    }
}

#[test]
fn newline_in_attr_list() {
    match parse_err(".foo[a,\nb]") {
        ParseError::NewlineInAttrs(n) => {
            assert_eq!(n.attr_start_loc.start.offset, 4);
            assert_eq!(n.newline_loc.start.offset, 7);
        }
        other => panic!("expected the newline diagnostic, got {:?}", other),
    }
}

#[test]
fn attrs_are_classified() {
    let nodes = parse_ok(".foo[a, b=c]{x}");
    match &nodes[0] {
        Content::Command { attrs, .. } => {
            let attrs = attrs.as_ref().expect("expected attributes");
            let items = attrs.args();
            assert_eq!(items.len(), 2);
            assert_eq!(items[0].name(), "a");
            assert_eq!(items[0].value(), None);
            assert_eq!(items[1].name(), "b");
            assert_eq!(items[1].value(), Some("c"));
        }
        other => panic!("expected a command, got {:?}", other),
    }
}

#[test]
fn command_qualifier_pluses_and_remainder() {
    let nodes = parse_ok(".std.title++: The Title");
    match &nodes[0] {
        Content::Command {
            qualifier,
            name,
            pluses,
            remainder_arg,
            ..
        } => {
            assert_eq!(qualifier.as_deref(), Some("std"));
            assert_eq!(name, "title");
            assert_eq!(*pluses, 2);
            let rem = remainder_arg.as_ref().expect("expected a remainder");
            assert!(rem.len() >= 2);
        }
        other => panic!("expected a command, got {:?}", other),
    }
}

#[test]
fn command_trailer_args() {
    let nodes = parse_ok(".list:: one :: two");
    match &nodes[0] {
        Content::Command { trailer_args, .. } => {
            assert_eq!(trailer_args.len(), 2);
        }
        other => panic!("expected a command, got {:?}", other),
    }
}

#[test]
fn words_whitespace_dashes_glue() {
    let nodes = parse_ok("a --- b~c");
    // a, space, em dash, space, b, glue, c
    assert_eq!(nodes.len(), 7);
    assert!(matches!(&nodes[2], Content::Dash { dash: Dash::Em, .. }));
    assert!(matches!(
        &nodes[5],
        Content::Glue {
            glue: Glue::Tight,
            ..
        }
    ));
}

#[test]
fn spilt_glue_keeps_raw_text() {
    let nodes = parse_ok("a~\nb");
    match &nodes[1] {
        Content::SpiltGlue { raw, .. } => assert_eq!(raw, "~\n"),
        other => panic!("expected spilt glue, got {:?}", other),
    }
}

#[test]
fn verbatim_and_comment() {
    let nodes = parse_ok("!kept as-is! // note");
    match &nodes[0] {
        Content::Verbatim { verbatim, .. } => assert_eq!(verbatim, "kept as-is"),
        other => panic!("expected verbatim, got {:?}", other),
    }
    match nodes.last().unwrap() {
        Content::Comment { comment, .. } => assert_eq!(comment, " note"),
        other => panic!("expected a comment, got {:?}", other),
    }
}

#[test]
fn shebang_mark_and_reference() {
    let nodes = parse_ok("#!driver line\n@[label] &[label]");
    match &nodes[0] {
        Content::Shebang { text, .. } => assert_eq!(text, "driver line"),
        other => panic!("expected a shebang, got {:?}", other),
    }
    let sugars: Vec<&Sugar> = nodes
        .iter()
        .filter_map(|n| match n {
            Content::Sugar(s) => Some(s),
            _ => None,
        })
        .collect();
    assert_eq!(sugars.len(), 2);
    match sugars[0] {
        Sugar::Mark { mark, .. } => assert_eq!(mark, "label"),
        other => panic!("expected a mark, got {:?}", other),
    }
    assert_eq!(sugars[0].call_name(), "mark");
    match sugars[1] {
        Sugar::Reference { reference, .. } => assert_eq!(reference, "label"),
        other => panic!("expected a reference, got {:?}", other),
    }
    assert_eq!(sugars[1].call_name(), "ref");
}

#[test]
fn italic_monospace_smallcaps_alternate() {
    let nodes = parse_ok("_i_ `m` =s= ==a==");
    let sugars: Vec<&Sugar> = nodes
        .iter()
        .filter_map(|n| match n {
            Content::Sugar(s) => Some(s),
            _ => None,
        })
        .collect();
    assert_eq!(sugars.len(), 4);
    assert_eq!(sugars[0].call_name(), "it");
    assert_eq!(sugars[1].call_name(), "tt");
    assert_eq!(sugars[2].call_name(), "sc");
    assert_eq!(sugars[3].call_name(), "af");
}

#[test]
fn unexpected_char_points_at_offender() {
    match parse_err("ok }") {
        ParseError::UnexpectedChar(u) => {
            assert_eq!(u.found, '}');
            assert_eq!(u.loc.start.offset, 3);
            assert_eq!(u.log().msg, "unexpected character \u{2018}}\u{2019}");
        }
        other => panic!("expected the character diagnostic, got {:?}", other),
    }
}

#[test]
fn four_dashes_are_rejected() {
    match parse_err("----") {
        ParseError::UnexpectedChar(u) => {
            assert_eq!(u.found, '-');
            assert_eq!(u.loc.start.offset, 3);
        }
        other => panic!("expected the character diagnostic, got {:?}", other),
    }
}

/// Every node's span delimits exactly the text that produced it.
#[test]
fn spans_reproduce_source() {
    let src = "# Title\nwords *bold* .cmd[k=v]{arg} !verb! /* c */\n";
    let nodes = parse_ok(src);
    let chars: Vec<char> = src.chars().collect();
    let mut rebuilt = String::new();
    for node in &nodes {
        let (start, end) = span_of(node);
        rebuilt.extend(&chars[start..end]);
    }
    assert_eq!(rebuilt, src);
}

fn span_of(c: &Content) -> (usize, usize) {
    let loc = match c {
        Content::Shebang { loc, .. } => loc,
        Content::Command { loc, .. } => loc,
        Content::Sugar(s) => match s {
            Sugar::Italic { loc, .. } => loc,
            Sugar::Bold { loc, .. } => loc,
            Sugar::Monospace { loc, .. } => loc,
            Sugar::Smallcaps { loc, .. } => loc,
            Sugar::AlternateFace { loc, .. } => loc,
            Sugar::Heading { loc, .. } => loc,
            Sugar::Mark { loc, .. } => loc,
            Sugar::Reference { loc, .. } => loc,
        },
        Content::Word { loc, .. } => loc,
        Content::Whitespace { loc, .. } => loc,
        Content::Dash { loc, .. } => loc,
        Content::Glue { loc, .. } => loc,
        Content::SpiltGlue { loc, .. } => loc,
        Content::Verbatim { loc, .. } => loc,
        Content::Comment { loc, .. } => loc,
        Content::MultiLineComment { loc, .. } => loc,
    };
    (loc.start.offset, loc.end.offset)
}

#[test]
fn decimal_rendering() {
    assert_eq!(emblem::log::decimal_string(0), "0");
    assert_eq!(emblem::log::decimal_string(7), "7");
    assert_eq!(emblem::log::decimal_string(12345), "12345");
}

#[test]
fn scanner_tracks_position() {
    let src = "ab\nc";
    let mut s = Scanner::new(FileName::new("s.em"), src);
    assert_eq!(s.peek(0), Some('a'));
    assert_eq!(s.peek(3), Some('c'));
    assert_eq!(s.peek(4), None);
    assert!(!s.at_eof());
    s.bump();
    s.bump();
    s.bump();
    let p = s.point();
    assert_eq!(p.offset, 3);
    assert_eq!(p.line, 2);
    assert_eq!(p.column, 1);
    assert_eq!(s.text_from(0), "ab\n");
    s.bump();
    assert!(s.at_eof());
}

#[test]
fn brace_group_trichotomy() {
    let mut ok = Scanner::new(FileName::new("g.em"), "{abc}");
    let cs = parse_brace_group(&mut ok).expect("a closed group should parse");
    assert_eq!(cs.len(), 1);

    let mut bad = Scanner::new(FileName::new("g.em"), "{ab\nc}");
    match parse_brace_group(&mut bad) {
        Err(ParseError::NewlineInAttrs(n)) => {
            assert_eq!(n.attr_start_loc.start.offset, 0);
            assert_eq!(n.newline_loc.start.offset, 3);
        }
        other => panic!("expected the newline diagnostic, got {:?}", other),
    }
}

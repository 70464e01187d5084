use emblem::ast::{Attr, Attrs, Sugar};
use emblem::location::{FileName, Location, Point};

#[test]
fn args() {
    let p1 = Point::new(FileName::new("fname.em"), "helloworld");
    let p2 = p1.clone().shift("hello");
    let p3 = p2.clone().shift("world");
    let tests = vec![
        vec![],
        vec![
            Attr::unnamed("hello", Location::new(&p1, &p2)),
            Attr::unnamed("world", Location::new(&p2, &p3)),
        ],
    ];

    for test in tests {
        assert_eq!(
            Attrs::new(test.clone(), Location::new(&p1, &p2)).args(),
            &test[..]
        );
    }
}

#[test]
fn unnamed() {
    let raw = " \tfoo\t ";
    let p1 = Point::new(FileName::new("fname.em"), raw);
    let attr = Attr::unnamed(raw, Location::new(&p1, &p1.clone().shift(raw)));

    assert_eq!(attr.name(), "foo");
    assert_eq!(attr.value(), None);
    assert_eq!(attr.raw(), raw);
}

#[test]
fn named() {
    let raw = " \tfoo\t =\t bar \t";
    let p1 = Point::new(FileName::new("fname.em"), raw);
    let attr = Attr::named(raw, Location::new(&p1, &p1.clone().shift(raw)));

    assert_eq!(attr.name(), "foo");
    assert_eq!(attr.value(), Some("bar"));
    assert_eq!(attr.raw(), raw);
}

#[test]
fn call_name() {
    let text = "hello, world!";
    let p1 = Point::new(FileName::new("main.em"), text);
    let p2 = p1.clone().shift(text);
    let loc = Location::new(&p1, &p2);

    assert_eq!(
        "it",
        Sugar::Italic {
            delimiter: "_".to_owned(),
            arg: vec![],
            loc: loc.clone()
        }
        .call_name()
    );
    assert_eq!(
        "bf",
        Sugar::Bold {
            delimiter: "**".to_owned(),
            arg: vec![],
            loc: loc.clone()
        }
        .call_name()
    );
    assert_eq!(
        "tt",
        Sugar::Monospace {
            arg: vec![],
            loc: loc.clone()
        }
        .call_name()
    );
    assert_eq!(
        "sc",
        Sugar::Smallcaps {
            arg: vec![],
            loc: loc.clone()
        }
        .call_name()
    );
    assert_eq!(
        "af",
        Sugar::AlternateFace {
            arg: vec![],
            loc: loc.clone()
        }
        .call_name()
    );

    for level in 1..=6 {
        for pluses in 0..=2 {
            assert_eq!(
                format!("h{level}"),
                Sugar::Heading {
                    level,
                    pluses,
                    standoff: " ".to_owned(),
                    arg: vec![],
                    loc: loc.clone(),
                    invocation_loc: loc.clone(),
                }
                .call_name()
            );
        }
    }
}

#[test]
fn classify_splits_at_first_eq() {
    let p = Point::new(FileName::new("a.em"), "k=v=w");
    let loc = Location::new(&p, &p.clone().shift("k=v=w"));
    let attr = Attr::classify("k=v=w", loc.clone());
    assert_eq!(attr.name(), "k");
    assert_eq!(attr.value(), Some("v=w"));

    let plain = Attr::classify("solo", loc);
    assert_eq!(plain.name(), "solo");
    assert_eq!(plain.value(), None);
}

#[test]
fn point_shift_counts_lines_and_columns() {
    let text = "ab\ncd";
    let p = Point::new(FileName::new("a.em"), text);
    assert_eq!(p.offset, 0);
    assert_eq!(p.line, 1);
    assert_eq!(p.column, 1);
    let q = p.shift(text);
    assert_eq!(q.offset, 5);
    assert_eq!(q.line, 2);
    assert_eq!(q.column, 3);
}

#[test]
fn location_span_to_covers_both() {
    let text = "abcdef";
    let p1 = Point::new(FileName::new("a.em"), text);
    let p2 = p1.clone().shift("ab");
    let p3 = p2.clone().shift("cd");
    let early = Location::new(&p1, &p2);
    let late = Location::new(&p2, &p3);
    let joined = early.span_to(&late);
    assert_eq!(joined.start.offset, 0);
    assert_eq!(joined.end.offset, 4);
}

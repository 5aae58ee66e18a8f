use scrut::escaping::Escaper;
use scrut::expectation::ExpectationMaker;
use scrut::rules::{RuleError, RuleKind};

fn expectation_maker() -> ExpectationMaker {
    ExpectationMaker::new()
}

#[test]
fn test_expectation_extract() {
    let tests = vec![
        ("foo", ("foo", "equal", "")),
        ("foo (?)", ("foo", "equal", "?")),
        ("foo (*)", ("foo", "equal", "*")),
        ("foo (+)", ("foo", "equal", "+")),
        ("foo (eq+)", ("foo", "eq", "+")),
        ("foo (equal+)", ("foo", "equal", "+")),
        ("foo (no-eol)", ("foo", "no-eol", "")),
        ("foo (no-eol?)", ("foo", "no-eol", "?")),
        ("foo (no-eol*)", ("foo", "no-eol", "*")),
        ("foo (no-eol+)", ("foo", "no-eol", "+")),
        ("foo (esc)", ("foo", "esc", "")),
        ("foo (esc*)", ("foo", "esc", "*")),
        ("foo (escaped)", ("foo", "escaped", "")),
        ("foo (escaped+)", ("foo", "escaped", "+")),
        ("foo (re)", ("foo", "re", "")),
        ("foo (re?)", ("foo", "re", "?")),
        ("foo (regex*)", ("foo", "regex", "*")),
        ("foo (regex+)", ("foo", "regex", "+")),
        ("foo (glob)", ("foo", "glob", "")),
        ("foo (glob?)", ("foo", "glob", "?")),
        ("foo (glob*)", ("foo", "glob", "*")),
        ("foo (glob+)", ("foo", "glob", "+")),
        ("foo (glob+) (glob+)", ("foo (glob+)", "glob", "+")),
    ];

    tests.iter().for_each(|(line, (expect_expression, expect_kind, expect_quantifier))| {
        let (expression, kind, quantifier) = expectation_maker().extract(line);
        assert_eq!(expect_expression.to_string(), expression, "expression from '{line}'");
        assert_eq!(expect_kind.to_string(), kind, "kind from '{line}'");
        assert_eq!(expect_quantifier.to_string(), quantifier, "quantifier from '{line}'");
    });
}

#[test]
fn test_parse_to_expression_string() {
    let tests = vec![
        ("foo", "foo"),
        ("foo (?)", "foo (?)"),
        ("foo (equal)", "foo"),
        ("foo (eq)", "foo"),
        ("foo (equal*)", "foo (*)"),
        ("foo (no-eol)", "foo (no-eol)"),
        ("foo (escaped)", "foo (escaped)"),
        ("foo (esc)", "foo (escaped)"),
        ("foo (esc+)", "foo (escaped+)"),
        ("foo (glob)", "foo (glob)"),
        ("foo (gl)", "foo (glob)"),
        ("foo (glob?)", "foo (glob?)"),
        ("foo (regex)", "foo (regex)"),
        ("foo (re)", "foo (regex)"),
        ("foo (regex*)", "foo (regex*)"),
    ];
    for (from, to) in tests {
        let expectation = expectation_maker()
            .parse(from)
            .unwrap_or_else(|_| panic!("parse `{from}`"));
        let rendered = expectation.to_expression_string(&Escaper::default_escaper());
        assert_eq!(rendered, *to, "`{from}` rendered back to `{to}`");
    }
}

#[test]
fn parsed_expectation_keeps_original() {
    let e = expectation_maker().parse("foo* (glob+)").expect("parse");
    assert_eq!("foo* (glob+)", e.original_string());
    assert!(e.multiline);
    assert!(!e.optional);
    assert_eq!(RuleKind::Glob, e.rule.kind);
}

#[test]
fn unknown_kind_is_an_error() {
    // a suffix with an unknown kind is part of the expression
    let e = expectation_maker().parse("foo (bar)").expect("parse");
    assert_eq!("foo (bar)", e.rule.expression);
    match expectation_maker().make("bar", "foo", false, false, "foo") {
        Err(RuleError::UnknownKind(k)) => assert_eq!("bar", k),
        other => panic!("unexpected {other:?}"),
    }
}

#[test]
fn invalid_regex_is_an_error() {
    match expectation_maker().parse("foo( (regex)") {
        Err(RuleError::InvalidRegex(e)) => assert_eq!("foo(", e),
        other => panic!("unexpected {other:?}"),
    }
}

#[test]
fn expectations_match_lines() {
    let m = expectation_maker();
    assert!(m.parse("foo").unwrap().matches(b"foo\n"));
    assert!(!m.parse("foo").unwrap().matches(b"foo"));
    assert!(m.parse("foo (no-eol)").unwrap().matches(b"foo"));
    assert!(m.parse("f?o* (glob)").unwrap().matches(b"foooo\n"));
    assert!(m.parse("fo+ (regex)").unwrap().matches(b"fooo\n"));
    assert!(!m.parse("fo+ (regex)").unwrap().matches(b"xfooo\n"));
    assert!(m.parse("a\\tb (escaped)").unwrap().matches(b"a\tb\n"));
    let (kind, expression, optional, multiline) = m.parse("x (re*)").unwrap().unmake();
    assert_eq!(("regex".to_string(), b"x".to_vec(), true, true), (kind, expression, optional, multiline));
}

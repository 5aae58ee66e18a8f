use scrut::escaping::{
    escaped_expectation_ascii, escaped_expectation_unicode, escaped_printable_ascii,
    escaped_printable_unicode, strip_colors, Escaper,
};

#[test]
fn test_bytes_as_printable_unicode() {
    let tests = vec![
        ("foo", "foo"),
        ("foo \x1b[1mbar\x1b[0m", "foo \\x1b[1mbar\\x1b[0m"),
        ("foo 😂", "foo 😂"),
        ("f🦀o", "f🦀o"),
        ("foo\tbar", "foo\\tbar"),
        ("foo \x1b[1m\t😂\x1d[0m", "foo \\x1b[1m\\t😂\\x1d[0m"),
        (
            "foo \x1b[2;5;0;31;47m\t😂\x1d[0m",
            "foo \\x1b[2;5;0;31;47m\\t😂\\x1d[0m",
        ),
    ];

    for (from, expect) in tests {
        let escaped = escaped_printable_unicode(from.as_bytes());
        assert_eq!(*expect, escaped, "from `{from}`");
    }
}

#[test]
fn test_bytes_as_printable_ascii() {
    let tests = vec![
        ("\x00\x01\x02", "\\x00\\x01\\x02"),
        ("foo", "foo"),
        ("foo \x1b[1mbar\x1b[0m", "foo \\x1b[1mbar\\x1b[0m"),
        ("foo 😂", "foo \\xf0\\x9f\\x98\\x82"),
        ("foo\tbar", "foo\\tbar"),
        (
            "foo \x1b[1m\t😂\x1d[0m",
            "foo \\x1b[1m\\t\\xf0\\x9f\\x98\\x82\\x1d[0m",
        ),
        (
            "foo \x1b[2;5;0;31;47m\t😂\x1d[0m",
            "foo \\x1b[2;5;0;31;47m\\t\\xf0\\x9f\\x98\\x82\\x1d[0m",
        ),
    ];

    for (from, expect) in tests {
        let escaped = escaped_printable_ascii(from.as_bytes());
        assert_eq!(expect, &escaped, "from `{from}`");
    }
}

#[test]
fn expectation_of_printable_line_is_the_line() {
    assert_eq!("foo", escaped_expectation_unicode(b"foo\n"));
    assert_eq!("foo", escaped_expectation_ascii(b"foo\n"));
}

#[test]
fn expectation_of_unprintable_line_is_escaped() {
    assert_eq!("foo\\tbar (escaped)", escaped_expectation_unicode(b"foo\tbar\n"));
    assert_eq!("\\xf0\\x9f\\x98\\x82 (escaped)", escaped_expectation_ascii("😂".as_bytes()));
    assert_eq!("😂", escaped_expectation_unicode("😂".as_bytes()));
}

#[test]
fn escaper_dispatches_on_kind() {
    assert!(Escaper::Ascii.has_unprintable("😂".as_bytes()));
    assert!(!Escaper::Unicode.has_unprintable("😂".as_bytes()));
    assert_eq!("a\\tb", Escaper::Unicode.escaped_printable(b"a\tb"));
    assert_eq!(Escaper::Unicode, Escaper::default_escaper());
}

#[test]
fn strip_colors_removes_ansi_sequences() {
    assert_eq!(Ok("foo bar".to_string()), strip_colors("foo \x1b[1mbar\x1b[0m"));
    assert_eq!(Ok("plain".to_string()), strip_colors("plain"));
}

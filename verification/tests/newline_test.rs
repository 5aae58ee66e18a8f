use scrut::newline::{
    assure_newline, assure_newline_bytes, bformatln, blines, formatln, replace_crlf,
    split_at_newline, trim_newlines, trim_newlines_bytes,
};

#[test]
fn test_formatln() {
    assert_eq!(formatln("something"), "something\n");
    assert_eq!(formatln(&format!("something {}", "bla")), "something bla\n".to_string());
    assert_eq!(
        formatln(&format!("something {} {}", "bla", "foo")),
        "something bla foo\n".to_string(),
    );
}

#[test]
fn test_bformatln() {
    assert_eq!(bformatln("something"), "something\n".as_bytes());
    assert_eq!(bformatln(&format!("something {}", "bla")), "something bla\n".as_bytes(),);
    assert_eq!(
        bformatln(&format!("something {} {}", "bla", "foo")),
        "something bla foo\n".as_bytes()
    );
}

#[test]
fn test_blines() {
    assert_eq!(blines(&["something"]), "something\n".as_bytes(),);
    assert_eq!(blines(&["something", "bla"]), "something\nbla\n".as_bytes());
    assert_eq!(blines(&["something", "bla", "foo"]), "something\nbla\nfoo\n".as_bytes());
}

#[test]
fn test_trim_newlines_bytes() {
    let tests = vec![("foo", "foo"), ("foo\n", "foo"), ("foo\n\n\n", "foo")];

    for (from, expect) in tests {
        let fromb = from.as_bytes();
        let to = trim_newlines_bytes(fromb);
        assert_eq!(expect.as_bytes(), to, "from `{:?}`", fromb);
    }
}

#[test]
fn test_assure_newline_bytes() {
    let tests = vec![("foo", "foo\n"), ("foo\n", "foo\n"), ("foo\n\n\n", "foo\n\n\n")];

    for (from, expect) in tests {
        let fromb = from.as_bytes();
        let to = assure_newline_bytes(fromb).to_vec();
        assert_eq!(expect.as_bytes().to_vec(), to, "from `{:?}`", fromb);
    }
}

#[test]
fn test_trim_newlines_string() {
    let tests = vec![("foo", "foo"), ("foo\n", "foo"), ("foo\n\n\n", "foo")];
    for (from, expect) in tests {
        let result = trim_newlines(from);
        assert_eq!(expect, result, "from {}", from);
    }
}

#[test]
fn test_assure_newline_string() {
    let tests = vec![("foo", "foo\n"), ("foo\n", "foo\n"), ("foo\n\n\n", "foo\n\n\n")];
    for (from, expect) in tests {
        let result = assure_newline(from);
        assert_eq!(expect, &result, "from {}", from);
    }
}

#[test]
fn test_split_at_newline() {
    let tests = vec![
        ("l1", vec![b"l1".to_vec()]),
        ("l1\n", vec![b"l1\n".to_vec()]),
        ("l1\nl2", vec![b"l1\n".to_vec(), b"l2".to_vec()]),
        ("l1\nl2\nl3\n", vec![b"l1\n".to_vec(), b"l2\n".to_vec(), b"l3\n".to_vec()]),
    ];
    for (from, expect) in tests {
        let to = split_at_newline(from.as_bytes());
        assert_eq!(expect, to, "from `{}`", from)
    }
}

#[test]
fn test_replace_crlf() {
    let tests = vec![
        ("l1", "l1"),
        ("l1\nl2", "l1\nl2"),
        ("l1\r\nl2", "l1\nl2"),
        ("l1\r\nl2\r\n", "l1\nl2\n"),
        ("\r\nl1\r\nl2\r\n", "\nl1\nl2\n"),
    ];

    for (from, expect) in tests {
        let to = replace_crlf(from.as_bytes());
        assert_eq!(expect.as_bytes().to_vec(), to.to_vec(),);
    }
}

#[test]
fn split_lines_join_back_to_the_input() {
    for from in ["", "a", "a\n", "a\n\nb", "\n\n", "x\ny\nz\n"] {
        let joined: Vec<u8> = split_at_newline(from.as_bytes()).concat();
        assert_eq!(from.as_bytes().to_vec(), joined);
    }
}

#[test]
fn empty_input_has_no_lines() {
    assert!(split_at_newline(b"").is_empty());
}

#[test]
fn trimming_an_assured_line_gives_the_trimmed_line() {
    for from in ["a", "a\n", "a\n\n", ""] {
        assert_eq!(trim_newlines(from), trim_newlines(&assure_newline(from)));
    }
}

#[test]
fn lone_carriage_return_stays() {
    assert_eq!(b"a\rb\n".to_vec(), replace_crlf(b"a\rb\r\n"));
}

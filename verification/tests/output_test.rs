use scrut::escaping::Escaper;
use scrut::output::{ExitStatus, Output, OutputStream};

#[test]
fn test_output_stream_appends_no_eol() {
    let tests = vec![
        ("a", "a (no-eol)\n"),
        ("a\n", "a\n"),
        ("a\nb", "a\nb (no-eol)\n"),
        ("a\nb\n", "a\nb\n"),
    ];
    for (from, expect) in tests {
        let stream = OutputStream(from.as_bytes().to_vec());
        let to = stream.to_output_string(None, &Escaper::default_escaper());
        assert_eq!(expect, &to, "from input '{from}'");
    }
}

#[test]
fn test_prefixed_output_stream() {
    let tests = vec![
        ("a\n", "> a\n"),
        ("a\nb\n", "> a\n> b\n"),
        ("a\nb\nc\n", "> a\n> b\n> c\n"),
    ];
    for (from, expect) in tests {
        let stream = OutputStream(from.as_bytes().to_vec());
        let to = stream.to_output_string(Some("> "), &Escaper::default_escaper());
        assert_eq!(expect, &to, "from input '{from}'");
    }
}

#[test]
fn exit_status_codes() {
    assert_eq!(0, ExitStatus::success().as_code());
    assert_eq!(80, ExitStatus::skip().as_code());
    assert_eq!(-1, ExitStatus::Timeout(5).as_code());
    assert_eq!(-255, ExitStatus::Unknown.as_code());
    assert_eq!("timeout[5ms]", ExitStatus::Timeout(5).to_display_string());
    assert_eq!("-3", ExitStatus::Code(-3).to_display_string());
}

#[test]
fn error_string_renders_both_streams() {
    let output = Output::new(b"out\n", b"err", Some(1));
    assert_eq!(
        "## STDOUT\n#> out\n## STDERR\n#> err (no-eol)\n",
        output.to_error_string(&Escaper::default_escaper())
    );
}

#[test]
fn unprintable_lines_are_escaped_without_no_eol() {
    let stream = OutputStream(b"a\tb".to_vec());
    assert_eq!("a\\tb (escaped)\n", stream.to_output_string(None, &Escaper::Unicode));
}

#[test]
fn timed_out_output_is_empty() {
    let output = Output::timed_out(100);
    assert!(output.stdout.0.is_empty());
    assert_eq!(ExitStatus::Timeout(100), output.exit_code);
}

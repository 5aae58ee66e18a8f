use scrut::config::OutputStreamControl;
use scrut::diff::DiffLine;
use scrut::expectation::ExpectationMaker;
use scrut::output::Output;
use scrut::testcase::{TestCase, TestCaseError};

fn testcase(expectations: &[&str], exit_code: Option<i32>) -> TestCase {
    let maker = ExpectationMaker::new();
    TestCase {
        shell_expression: "cmd".to_string(),
        expectations: expectations.iter().map(|e| maker.parse(e).expect("parse")).collect(),
        exit_code,
        ..Default::default()
    }
}

#[test]
fn valid_output_validates() {
    let t = testcase(&["a", "b* (glob)"], None);
    assert_eq!(Ok(()), t.validate(&Output::new(b"a\nbcd\n", b"ignored", Some(0))));
}

#[test]
fn exit_code_is_checked_first() {
    let t = testcase(&["a"], Some(2));
    assert_eq!(
        Err(TestCaseError::InvalidExitCode { actual: 0, expected: 2 }),
        t.validate(&Output::new(b"wrong\n", b"", Some(0)))
    );
    assert_eq!(
        Err(TestCaseError::InvalidExitCode { actual: -1, expected: 0 }),
        testcase(&[], None).validate(&Output::timed_out(5))
    );
}

#[test]
fn malformed_output_carries_the_diff() {
    let t = testcase(&["a"], None);
    match t.validate(&Output::new(b"b\n", b"", Some(0))) {
        Err(TestCaseError::MalformedOutput(diff)) => {
            assert_eq!(2, diff.lines.len());
            assert!(matches!(diff.lines[0], DiffLine::UnmatchedExpectation { .. }));
        }
        other => panic!("unexpected {other:?}"),
    }
}

#[test]
fn testcase_from_expression() {
    let t = TestCase::from_expression("echo");
    assert_eq!("echo", t.shell_expression);
    assert!(t.expectations.is_empty());
    assert_eq!(None, t.exit_code);
    assert!(t.config.is_empty());
}

#[test]
fn expectations_apply_to_the_chosen_stream() {
    let mut t = testcase(&["err"], None);
    assert!(t.validate(&Output::new(b"out\n", b"err\n", Some(0))).is_err());
    t.config.output_stream = Some(OutputStreamControl::Stderr);
    assert_eq!(Ok(()), t.validate(&Output::new(b"out\n", b"err\n", Some(0))));
    t.config.output_stream = Some(OutputStreamControl::Combined);
    assert!(t.validate(&Output::new(b"out\n", b"err\n", Some(0))).is_err());
}

#[test]
fn crlf_is_translated_unless_kept() {
    let mut t = testcase(&["a"], None);
    assert_eq!(Ok(()), t.validate(&Output::new(b"a\r\n", b"", Some(0))));
    t.config.keep_crlf = Some(false);
    assert_eq!(Ok(()), t.validate(&Output::new(b"a\r\n", b"", Some(0))));
    t.config.keep_crlf = Some(true);
    assert!(t.validate(&Output::new(b"a\r\n", b"", Some(0))).is_err());
}

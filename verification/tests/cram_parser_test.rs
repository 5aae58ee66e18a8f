use std::sync::Arc;

use scrut::config::TestCaseConfig;
use scrut::expectation::{Expectation, ExpectationMaker};
use scrut::parsers::cram::{CramParser, DEFAULT_CRAM_INDENTION};
use scrut::parsers::parser::Parser;
use scrut::testcase::TestCase;

fn parser() -> CramParser {
    CramParser::new(Arc::new(ExpectationMaker::new()), DEFAULT_CRAM_INDENTION)
}

fn exp4(kind: &str, expression: &str, optional: bool, multiline: bool) -> Expectation {
    ExpectationMaker::new()
        .make(kind, expression, optional, multiline, &format!("{} ({})", expression, kind))
        .expect("create test expectation")
}

#[test]
fn test_minimal_testcase() {
    let cram_test = r#"This is a title
  $ echo hello
  hello
"#;
    let parser = parser();
    let (_, testcases) = parser.parse(cram_test).expect("must parse");
    assert_eq!(1, testcases.len());
    assert_eq!(
        TestCase {
            shell_expression: "echo hello".to_string(),
            expectations: vec![exp4("equal", "hello", false, false)],
            title: "This is a title".to_string(),
            exit_code: None,
            line_number: 2,
            config: TestCaseConfig::default_cram(),
        },
        testcases[0]
    );
}

#[test]
fn test_allow_empty_lines_between_title_and_body() {
    let cram_test = r#"


This is a title


  $ echo hello
  hello


"#;
    let parser = parser();
    let (_, testcases) = parser.parse(cram_test).expect("must parse");
    assert_eq!(1, testcases.len());
    assert_eq!(
        TestCase {
            shell_expression: "echo hello".to_string(),
            expectations: vec![exp4("equal", "hello", false, false)],
            title: "This is a title".to_string(),
            exit_code: None,
            line_number: 7,
            config: TestCaseConfig::default_cram(),
        },
        testcases[0]
    );
}

#[test]
fn test_the_closest_title_is_used() {
    let cram_test = r#"

Title 1

Title 2


  $ echo hello
  hello


"#;
    let parser = parser();
    let (_, testcases) = parser.parse(cram_test).expect("must parse");
    assert_eq!(1, testcases.len());
    assert_eq!(
        TestCase {
            shell_expression: "echo hello".to_string(),
            expectations: vec![exp4("equal", "hello", false, false)],
            title: "Title 2".to_string(),
            exit_code: None,
            line_number: 8,
            config: TestCaseConfig::default_cram(),
        },
        testcases[0]
    );
}

#[test]
fn test_multiple_testcases() {
    let cram_test = r#"
This is a title
  $ echo hello
  hello



This is the next title
  $ echo something
  something
This is the yet more title
  $ echo lastly
  lastly
"#;
    let parser = parser();
    let (_, testcases) = parser.parse(cram_test).expect("must parse");
    assert_eq!(3, testcases.len());
    assert_eq!(
        TestCase {
            shell_expression: "echo hello".to_string(),
            expectations: vec![exp4("equal", "hello", false, false)],
            title: "This is a title".to_string(),
            exit_code: None,
            line_number: 3,
            config: TestCaseConfig::default_cram(),
        },
        testcases[0],
        "testcase 1",
    );
    assert_eq!(
        TestCase {
            shell_expression: "echo something".to_string(),
            expectations: vec![exp4("equal", "something", false, false)],
            title: "This is the next title".to_string(),
            exit_code: None,
            line_number: 9,
            config: TestCaseConfig::default_cram(),
        },
        testcases[1],
        "testcase 2",
    );
    assert_eq!(
        TestCase {
            shell_expression: "echo lastly".to_string(),
            expectations: vec![exp4("equal", "lastly", false, false)],
            title: "This is the yet more title".to_string(),
            exit_code: None,
            line_number: 12,
            config: TestCaseConfig::default_cram(),
        },
        testcases[2],
        "testcase 3",
    );
}

#[test]
fn test_multiline_command() {
    let cram_test = r"
The title
  $ echo hello && \
  > echo more && \
  > echo most
  hello
  more
  most
";
    let parser = parser();
    let (_, testcases) = parser.parse(cram_test).expect("must parse");
    assert_eq!(1, testcases.len());
    assert_eq!(
        TestCase {
            shell_expression: ["echo hello && \\", "echo more && \\", "echo most"].join("\n"),
            expectations: vec![
                exp4("equal", "hello", false, false),
                exp4("equal", "more", false, false),
                exp4("equal", "most", false, false),
            ],
            title: "The title".into(),
            exit_code: None,
            line_number: 3,
            config: TestCaseConfig::default_cram(),
        },
        testcases[0]
    );
}

#[test]
fn test_exit_code_is_extracted() {
    let cram_test = r#"
This has an exit code 1
  $ command1
  output
  [4]

This has an exit code 2
  $ command2
  [15]

This has an exit code 3
  $ command3
  output1
  [106]
  output2
"#;
    let parser = parser();
    let (_, testcases) = parser.parse(cram_test).expect("must parse");
    assert_eq!(3, testcases.len());
    assert_eq!(
        TestCase {
            shell_expression: "command1".to_string(),
            expectations: vec![exp4("equal", "output", false, false)],
            title: "This has an exit code 1".to_string(),
            exit_code: Some(4),
            line_number: 3,
            config: TestCaseConfig::default_cram(),
        },
        testcases[0]
    );
    assert_eq!(
        TestCase {
            shell_expression: "command2".to_string(),
            expectations: vec![],
            title: "This has an exit code 2".to_string(),
            exit_code: Some(15),
            line_number: 8,
            config: TestCaseConfig::default_cram(),
        },
        testcases[1]
    );
    assert_eq!(
        TestCase {
            shell_expression: "command3".to_string(),
            expectations: vec![
                exp4("equal", "output1", false, false),
                exp4("equal", "output2", false, false)
            ],
            title: "This has an exit code 3".to_string(),
            exit_code: Some(106),
            line_number: 12,
            config: TestCaseConfig::default_cram(),
        },
        testcases[2]
    );
}

#[test]
fn test_only_one_exit_code_is_allowed() {
    let cram_test = r#"
Only one exit code please
  $ command1
  [1]
  [2]
"#;
    let parser = parser();
    let result = parser.parse(cram_test);
    assert!(result.is_err());
    let err = result.unwrap_err();
    assert_eq!(
        "line 5: exit code provided multiple times".to_string(),
        err.to_string()
    );
}

#[test]
fn test_line_comments_are_ignored() {
    let cram_test = r#"
# this is a line comment
# and another line comment

This is a title
  $ echo hello
  # this is not a comment, but part of the output
  hello

# even more line comments
"#;
    let parser = parser();
    let (_, testcases) = parser.parse(cram_test).expect("must parse");
    assert_eq!(1, testcases.len());
    assert_eq!(
        TestCase {
            shell_expression: "echo hello".to_string(),
            expectations: vec![
                exp4("equal", "# this is not a comment, but part of the output", false, false),
                exp4("equal", "hello", false, false),
            ],
            title: "This is a title".to_string(),
            exit_code: None,
            line_number: 6,
            config: TestCaseConfig::default_cram(),
        },
        testcases[0]
    );
}

#[test]
fn test_real_life_multiline() {
    let cram_test = r#"Setup a buck dir with a mock visibility list
  $ source $TESTDIR/setup.sh
  $ mkdir -p path/to
  $ cat << EOF > path/to/visibility.bzl
  > VISIBILITY = [
  >     "//:bar",
  >     "//:baz",
  > ]
  > EOF
  $ bla"#;
    let parser = parser();
    let (_, testcases) = parser.parse(cram_test).expect("no error");

    assert_eq!(4, testcases.len());
    assert_eq!(
        TestCase {
            shell_expression: "source $TESTDIR/setup.sh".to_string(),
            expectations: vec![],
            title: "Setup a buck dir with a mock visibility list".to_string(),
            exit_code: None,
            line_number: 2,
            config: TestCaseConfig::default_cram(),
        },
        testcases[0]
    );
    assert_eq!(
        TestCase {
            shell_expression: "mkdir -p path/to".to_string(),
            expectations: vec![],
            title: "".to_string(),
            exit_code: None,
            line_number: 3,
            config: TestCaseConfig::default_cram(),
        },
        testcases[1]
    );
    assert_eq!(
        TestCase {
            shell_expression: [
                "cat << EOF > path/to/visibility.bzl",
                "VISIBILITY = [",
                "    \"//:bar\",",
                "    \"//:baz\",",
                "]",
                "EOF",
            ]
            .join("\n"),
            expectations: vec![],
            title: "".to_string(),
            exit_code: None,
            line_number: 4,
            config: TestCaseConfig::default_cram(),
        },
        testcases[2]
    );
    assert_eq!(
        TestCase {
            shell_expression: ["bla"].join("\n"),
            expectations: vec![],
            title: "".to_string(),
            exit_code: None,
            line_number: 10,
            config: TestCaseConfig::default_cram(),
        },
        testcases[3]
    );
}

#[test]
fn indention_is_configurable() {
    let parser = CramParser::new(Arc::new(ExpectationMaker::new()), 4);
    let (_, testcases) = parser.parse("T\n    $ echo a\n    a\n").expect("must parse");
    assert_eq!(1, testcases.len());
    assert_eq!("echo a", testcases[0].shell_expression);
    assert_eq!(1, testcases[0].expectations.len());
}

#[test]
fn cram_document_has_empty_config() {
    let (config, testcases) = parser().parse("").expect("must parse");
    assert!(config.is_empty());
    assert!(testcases.is_empty());
}

#[test]
fn crlf_line_endings_are_lines() {
    let (_, testcases) = parser().parse("T\r\n  $ echo a\r\n  a\r\n").expect("must parse");
    assert_eq!("T", testcases[0].title);
    assert_eq!("echo a", testcases[0].shell_expression);
    assert_eq!(TestCaseConfig::default_cram(), testcases[0].config);
}

fn parse_through<P: Parser>(parser: &P, text: &str) -> usize {
    Parser::parse(parser, text).expect("parse").1.len()
}

#[test]
fn cram_parser_through_its_trait() {
    assert_eq!(2, parse_through(&parser(), "  $ echo a\n  a\n\n  $ echo b\n  b\n"));
    assert_eq!(0, parse_through(&parser(), "just text\n"));
}

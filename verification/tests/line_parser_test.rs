use std::sync::Arc;

use scrut::expectation::{Expectation, ExpectationMaker};
use scrut::parsers::line_parser::{extract_exit_code, is_comment, CodeType, LineParser, ParseError};
use scrut::rules::RuleError;
use scrut::testcase::TestCase;

fn engine(allow_multiple_commands: bool) -> LineParser {
    LineParser::new(Arc::new(ExpectationMaker::new()), allow_multiple_commands)
}

fn exp(kind: &str, expression: &str) -> Expectation {
    ExpectationMaker::new()
        .make(kind, expression, false, false, &format!("{} ({})", expression, kind))
        .expect("create test expectation")
}

fn testcase(title: &str, shell_expression: &str, expectations: Vec<Expectation>, exit_code: Option<i32>, line_number: usize) -> TestCase {
    TestCase {
        title: title.to_string(),
        shell_expression: shell_expression.to_string(),
        expectations,
        exit_code,
        line_number,
        ..Default::default()
    }
}

#[test]
fn test_testcase_is_combined() {
    let mut engine = engine(false);
    engine.set_testcase_title("foo");
    engine.add_testcase_body("$ bar", 1).expect("add command");
    engine.add_testcase_body("baz", 2).expect("add expectation");
    engine.add_testcase_body("[5]", 3).expect("add expectation");
    engine.end_testcase(4).expect("testcase ending");
    assert_eq!(vec![testcase("foo", "bar", vec![exp("equal", "baz")], Some(5), 2)], engine.testcases)
}

#[test]
fn test_last_title_is_used() {
    let mut engine = engine(false);
    engine.set_testcase_title("foo1");
    engine.set_testcase_title("foo2");
    engine.set_testcase_title("foo3");
    engine.add_testcase_body("$ bar", 1).expect("add command");
    engine.add_testcase_body("baz", 2).expect("add expectation");
    engine.add_testcase_body("[5]", 3).expect("add expectation");
    engine.end_testcase(4).expect("testcase ending");
    assert_eq!(vec![testcase("foo3", "bar", vec![exp("equal", "baz")], Some(5), 2)], engine.testcases)
}

#[test]
fn test_command_is_combined() {
    let mut engine = engine(false);
    engine.set_testcase_title("foo");
    engine.add_testcase_body("$ bar1", 1).expect("add command");
    engine.add_testcase_body("> bar2", 1).expect("add command");
    engine.add_testcase_body("> bar3", 1).expect("add command");
    engine.add_testcase_body("baz", 2).expect("add expectation");
    engine.add_testcase_body("[5]", 3).expect("add expectation");
    engine.end_testcase(4).expect("testcase ending");
    assert_eq!(
        vec![testcase("foo", "bar1\nbar2\nbar3", vec![exp("equal", "baz")], Some(5), 2)],
        engine.testcases
    )
}

#[test]
fn test_expectations_are_stacked() {
    let mut engine = engine(false);
    engine.set_testcase_title("foo");
    engine.add_testcase_body("$ bar", 1).expect("add command");
    engine.add_testcase_body("baz1", 2).expect("add expectation");
    engine.add_testcase_body("baz2", 3).expect("add expectation");
    engine.add_testcase_body("baz3", 4).expect("add expectation");
    engine.add_testcase_body("[5]", 5).expect("add expectation");
    engine.end_testcase(6).expect("testcase ending");
    assert_eq!(
        vec![testcase(
            "foo",
            "bar",
            vec![exp("equal", "baz1"), exp("equal", "baz2"), exp("equal", "baz3")],
            Some(5),
            2
        )],
        engine.testcases
    )
}

#[test]
fn test_multiple_commands_in_block() {
    let mut engine = engine(true);
    engine.add_testcase_body("$ foo1", 1).expect("add 1st command");
    engine.add_testcase_body("$ foo2", 2).expect("add 2nd command");
    engine.add_testcase_body("$ foo3", 3).expect("add 3rd command");
    engine.end_testcase(4).expect("testcase ending");
    assert_eq!(
        vec![
            testcase("", "foo1", vec![], None, 2),
            testcase("", "foo2", vec![], None, 3),
            testcase("", "foo3", vec![], None, 4),
        ],
        engine.testcases
    )
}

#[test]
fn test_single_command_in_block() {
    let mut engine = engine(false);
    engine.add_testcase_body("$ foo1", 1).expect("add 1st command");
    engine.add_testcase_body("$ foo2", 2).expect("add 2nd command");
    engine.add_testcase_body("$ foo3", 3).expect("add 3rd command");
    engine.end_testcase(4).expect("testcase ending");
    assert_eq!(
        vec![testcase("", "foo1", vec![exp("equal", "$ foo2"), exp("equal", "$ foo3")], None, 2)],
        engine.testcases
    )
}

#[test]
fn test_testcases_stack() {
    let mut engine = engine(false);
    engine.set_testcase_title("foo1");
    engine.add_testcase_body("$ bar1", 1).expect("add command1");
    engine.add_testcase_body("baz1", 2).expect("add expectation1");
    engine.add_testcase_body("[1]", 3).expect("add exit code1");
    engine.end_testcase(10).expect("testcase ending1");
    engine.set_testcase_title("foo2");
    engine.add_testcase_body("$ bar2", 4).expect("add command2");
    engine.add_testcase_body("baz2", 5).expect("add expectation2");
    engine.add_testcase_body("[2]", 6).expect("add exit code2");
    engine.end_testcase(10).expect("testcase ending2");
    engine.set_testcase_title("foo3");
    engine.add_testcase_body("$ bar3", 7).expect("add command3");
    engine.add_testcase_body("baz3", 8).expect("add expectation3");
    engine.add_testcase_body("[3]", 9).expect("add exit code3");
    engine.end_testcase(10).expect("testcase ending3");
    assert_eq!(
        vec![
            testcase("foo1", "bar1", vec![exp("equal", "baz1")], Some(1), 2),
            testcase("foo2", "bar2", vec![exp("equal", "baz2")], Some(2), 5),
            testcase("foo3", "bar3", vec![exp("equal", "baz3")], Some(3), 8),
        ],
        engine.testcases
    )
}

#[test]
fn test_exit_code_provided_is_remembered() {
    for provided in [true, false] {
        let mut engine = engine(false);
        engine.set_testcase_title("foo1");
        engine.add_testcase_body("$ bar", 1).expect("add command");
        if provided {
            engine.add_testcase_body("[0]", 2).expect("add exit code");
        }
        engine.end_testcase(3).expect("testcase ending");
        assert_eq!(
            vec![testcase("foo1", "bar", vec![], if provided { Some(0) } else { None }, 2)],
            engine.testcases,
            "provided exit code {provided}",
        )
    }
}

#[test]
fn test_extract_exit_code() {
    let tests: Vec<(&str, Option<i32>)> = vec![
        ("foo", None),
        ("[]", None),
        ("[0]", Some(0)),
        ("[1]", Some(1)),
        ("[99]", Some(99)),
        ("[a]", None),
    ];
    tests.iter().for_each(|(line, expect)| {
        let result = extract_exit_code(line);
        assert_eq!(*expect, result, "parsed '{}'", line);
    });
}

#[test]
fn exit_codes_beyond_i32_are_no_exit_codes() {
    assert_eq!(Some(2147483647), extract_exit_code("[2147483647]"));
    assert_eq!(None, extract_exit_code("[2147483648]"));
    assert_eq!(Some(7), extract_exit_code("[007]"));
    assert_eq!(None, extract_exit_code("[1] "));
}

#[test]
fn second_exit_code_is_an_error() {
    let mut engine = engine(false);
    engine.add_testcase_body("$ cmd", 0).expect("command");
    assert_eq!(Ok(CodeType::ExitCode), engine.add_testcase_body("[1]", 1));
    let err = engine.add_testcase_body("[2]", 2).unwrap_err();
    assert_eq!(ParseError::MultipleExitCodes { line: 3 }, err);
    assert_eq!("line 3: exit code provided multiple times", err.to_string());
}

#[test]
fn expectations_without_command_are_an_error() {
    let mut engine = engine(false);
    engine.add_testcase_body("output", 4).expect("expectation");
    let err = engine.end_testcase(5).unwrap_err();
    assert_eq!(
        "line 6: testcase output expectation(s) given, but no shell expression specified",
        err.to_string()
    );
}

#[test]
fn continuation_after_ended_testcase_is_an_error() {
    let mut engine = engine(true);
    engine.add_testcase_body("$ a", 0).expect("command");
    engine.end_testcase(1).expect("end");
    let err = engine.add_testcase_body("> b", 2).unwrap_err();
    assert_eq!(ParseError::ContinuationWithoutCommand { line: 3 }, err);
}

#[test]
fn comments_start_with_hash() {
    assert!(is_comment("# foo"));
    assert!(!is_comment(" # foo"));
    assert!(!is_comment(""));
}

#[test]
fn invalid_expectation_carries_the_rule_error() {
    let mut p = engine(true);
    assert_eq!(Ok(CodeType::CommandStart), p.add_testcase_body("$ echo", 0));
    assert_eq!(
        Err(ParseError::InvalidExpectation { line: 2, error: RuleError::InvalidRegex("a(".to_string()) }),
        p.add_testcase_body("a( (regex)", 1)
    );
    assert_eq!(
        Err(RuleError::UnknownKind("nope".to_string())),
        ExpectationMaker::new().make("nope", "x", false, false, "x")
    );
}

use scrut::config::DocumentConfig;
use scrut::debug::{compare_bytewise, print_bytewise};
use scrut::diff::{DiffLine, DiffTool};
use scrut::escaping::{Escaper, escaped_printable_ascii};
use scrut::executors::bash_runner::{BashRunner, parse_env_entries};
use scrut::executors::context::Context;
use scrut::executors::divider::{generate_divider, parse_divider_bytes, DividerSearch};
use scrut::executors::error::{ExecutionError, ExecutionTimeout};
use scrut::executors::execution::Execution;
use scrut::executors::sequential_executor::SequentialShellExecutor;
use scrut::executors::stateful_executor::{select_timeout, stateful_step, StatefulExecutor, StatefulStep};
use scrut::expectation::ExpectationMaker;
use scrut::interpolation::interpolate_str;
use scrut::nameutil::UniqueNamer;
use scrut::newline::{replace_crlf, split_at_newline};
use scrut::outcome::Outcome;
use scrut::output::{ExitStatus, Output, OutputStream};
use scrut::parsers::parser::ParserType;
use scrut::rules::{Rule, RuleKind};
use scrut::testcase::{TestCase, TestCaseError};
use scrut::validation::handle_early_termination;

const DIVIDER_PREFIX: &str = "~~~~~~~~EXECDIVIDER::";

fn testcase(expectations: &[&str]) -> TestCase {
    let maker = ExpectationMaker::new();
    TestCase {
        shell_expression: "cmd".to_string(),
        expectations: expectations.iter().map(|e| maker.parse(e).expect("parse")).collect(),
        ..Default::default()
    }
}

#[test]
fn generate_names_within_directory() {
    let mut namer = UniqueNamer::new("temp");
    let next = |namer: &mut UniqueNamer, prefix: &str| -> String {
        let mut counter = 0;
        loop {
            if let Some(name) = namer.next_name(prefix, counter, false) {
                return name;
            }
            counter += 1;
        }
    };
    let prefix = "name";
    assert_eq!("name", next(&mut namer, prefix));
    assert_eq!("name-1", next(&mut namer, prefix));
    assert_eq!("name-2", next(&mut namer, prefix));
    assert_eq!("name-3", next(&mut namer, prefix));
}

#[test]
fn names_that_exist_on_disk_are_passed_over() {
    let mut namer = UniqueNamer::new("dir");
    assert_eq!(None, namer.next_name("a", 0, true));
    assert_eq!(Some("a-1".to_string()), namer.next_name("a", 1, false));
    assert_eq!(None, namer.next_name("a", 1, false));
    assert_eq!("a-12", UniqueNamer::candidate("a", 12));
    assert!(namer.is_handed_out("a-1"));
    assert!(!namer.is_handed_out("a"));
}

#[test]
fn bytes_are_listed_side_by_side() {
    assert_eq!(vec![(0, b'a'), (1, b'b')], print_bytewise(b"ab"));
    assert_eq!(vec![(0, b'a', b'x'), (1, b'b', 0), (2, b'c', 0)], compare_bytewise(b"abc", b"x"));
    assert_eq!(vec![(0, 0, b'x'), (1, 0, b'y')], compare_bytewise(b"", b"xy"));
}

#[test]
fn environment_file_is_read() {
    let content = b"A=1\0B=x=y\0bad-key=1\0\0noeq\0\xff=1\0_C9=3";
    assert_eq!(
        vec![
            ("A".to_string(), "1".to_string()),
            ("B".to_string(), "x=y".to_string()),
            ("_C9".to_string(), "3".to_string()),
        ],
        parse_env_entries(content)
    );
    assert_eq!(Vec::<(String, String)>::new(), parse_env_entries(b""));
    assert_eq!(vec![("K".to_string(), "".to_string())], parse_env_entries(b"K=\0"));
    let runner = BashRunner::new("/bin/bash", "/tmp/state");
    assert_eq!("/bin/bash", runner.shell);
    assert_eq!("/tmp/state", runner.state_directory);
}

#[test]
fn context_holds_its_parts() {
    let context = Context::new("work", "temp", "test.md", DocumentConfig::default());
    assert_eq!("work", context.work_directory);
    assert_eq!("temp", context.temp_directory);
    assert_eq!("test.md", context.file);
    assert!(context.config.is_empty());
}

#[test]
fn sequential_script_runs_executions_in_order() {
    let executor = SequentialShellExecutor::new("bash");
    assert_eq!("bash", executor.shell);
    let executions = vec![
        Execution::new("echo a").environment(&[("FOO", "x y")]),
        Execution::new("echo b"),
    ];
    let script = executor.script_with_salt(&executions, false, "SALT").expect("script");
    assert_eq!(
        format!(
            "export FOO='x y'\necho a\n\necho \"{p}SALT::0::$?\"\n1>&2 echo \"{p}SALT::0::$?\"\nunset FOO\necho b\n\necho \"{p}SALT::1::$?\"\n1>&2 echo \"{p}SALT::1::$?\"",
            p = DIVIDER_PREFIX
        ),
        script
    );
    let combined = executor.script_with_salt(&executions[1..], true, "S").expect("script");
    assert_eq!(format!("echo b\n\necho \"{}S::0::$?\"", DIVIDER_PREFIX), combined);
    let random = executor.build_expression(&executions, true).expect("script");
    assert!(random.starts_with("export FOO='x y'\necho a\n\necho \"~~~~~~~~EXECDIVIDER::"));
}

#[test]
fn sequential_script_refuses_timeouts_and_bad_names() {
    let executor = SequentialShellExecutor::new("bash");
    assert_eq!(
        Err(ExecutionError::FailedExecution {
            index: 1,
            error: "timeout per execution not supported in sequential execution".to_string()
        }),
        executor.script_with_salt(
            &[Execution::new("a"), Execution::new("b").timeout(Some(10))],
            false,
            "S"
        )
    );
    assert_eq!(
        Err(ExecutionError::FailedExecution {
            index: 0,
            error: "Environment variable 'A B' contains invalid characters".to_string()
        }),
        executor.script_with_salt(&[Execution::new("a").environment(&[("A B", "1")])], false, "S")
    );
}

#[test]
fn own_timeout_comes_before_the_total_one() {
    assert_eq!(Some((false, 5)), select_timeout(Some(5), Some(1)));
    assert_eq!(Some((true, 7)), select_timeout(None, Some(7)));
    assert_eq!(None, select_timeout(None, None));
    assert_eq!("sh", StatefulExecutor::new("sh").shell);
}

#[test]
fn stateful_outputs_decide_what_follows() {
    let first = vec![Output::new(b"a\n", b"", Some(0))];
    match stateful_step(first.clone(), Output::new(b"b\n", b"", Some(1)), 1, 3, false, 100, 80) {
        StatefulStep::Continue(outs) => assert_eq!(2, outs.len()),
        _ => panic!("expected to go on"),
    }
    match stateful_step(first.clone(), Output::new(b"", b"", Some(80)), 1, 3, false, 100, 80) {
        StatefulStep::Stopped(e) => assert_eq!(ExecutionError::Skipped(1), e),
        _ => panic!("expected to skip"),
    }
    match stateful_step(first.clone(), Output::timed_out(3), 1, 3, true, 100, 80) {
        StatefulStep::Stopped(ExecutionError::Timeout(ExecutionTimeout::Total, outs)) => {
            assert_eq!(ExitStatus::Timeout(100), outs[1].exit_code)
        }
        _ => panic!("expected a total timeout"),
    }
    match stateful_step(first.clone(), Output::timed_out(3), 1, 3, false, 100, 80) {
        StatefulStep::Stopped(ExecutionError::Timeout(ExecutionTimeout::Index(1), outs)) => {
            assert_eq!(ExitStatus::Timeout(3), outs[1].exit_code)
        }
        _ => panic!("expected the test case's timeout"),
    }
    match stateful_step(first, Output::new(b"x", b"", None), 1, 4, false, 100, 80) {
        StatefulStep::Finished(outs) => {
            assert_eq!(4, outs.len());
            assert_eq!(b"x".to_vec(), outs[1].stdout.0);
            assert_eq!(ExitStatus::Unknown, outs[3].exit_code);
        }
        _ => panic!("expected to finish"),
    }
}

#[test]
fn early_termination_validates_what_ran_and_skips_the_rest() {
    let testcases = vec![testcase(&["a"]), testcase(&["b"]), testcase(&["c"])];
    let outputs = vec![Output::new(b"a\n", b"", Some(0)), Output::timed_out(10)];
    let mut outcomes: Vec<Outcome> = vec![];
    let (mut success, mut failed, mut skipped) = (0, 0, 0);
    handle_early_termination(
        &outputs,
        &testcases,
        &mut outcomes,
        "doc.md",
        Escaper::Unicode,
        ParserType::Markdown,
        &mut success,
        &mut failed,
        &mut skipped,
        true,
    );
    assert_eq!((1, 1, 1), (success, failed, skipped));
    assert_eq!(3, outcomes.len());
    assert_eq!(Ok(()), outcomes[0].result);
    assert_eq!(Err(TestCaseError::Timeout), outcomes[1].result);
    assert_eq!(Err(TestCaseError::Skipped), outcomes[2].result);
    assert_eq!(Some("doc.md".to_string()), outcomes[2].location);
    assert_eq!(ExitStatus::Unknown, outcomes[2].output.exit_code);
    let mut more: Vec<Outcome> = vec![];
    handle_early_termination(
        &outputs,
        &testcases,
        &mut more,
        "doc.md",
        Escaper::Unicode,
        ParserType::Markdown,
        &mut success,
        &mut failed,
        &mut skipped,
        false,
    );
    assert_eq!(
        Err(TestCaseError::InvalidExitCode { actual: -1, expected: 0 }),
        more[1].result
    );
    assert_eq!((2, 2, 2), (success, failed, skipped));
}

#[test]
fn split_lines_concatenate_to_input() {
    let input = b"a\r\nb\n\nc";
    let lines = split_at_newline(input);
    assert_eq!(vec![b"a\r\n".to_vec(), b"b\n".to_vec(), b"\n".to_vec(), b"c".to_vec()], lines);
    assert_eq!(input.to_vec(), lines.concat());
}

#[test]
fn interpolation_leaves_text_without_dollar_and_replaces_given_variables() {
    let env = vec![("NAME".to_string(), "value".to_string())];
    assert_eq!("plain text {x}", interpolate_str("plain text {x}", &env));
    assert_eq!("value", interpolate_str("$NAME", &env));
    assert_eq!("$OTHER", interpolate_str("$OTHER", &env));
}

#[test]
fn printed_divider_reads_back_with_index_and_exit_code() {
    let divider = generate_divider("aZ09", 42);
    let printed = format!("{}\n", divider.replace("$?", "127"));
    assert_eq!(
        Ok(DividerSearch::Found { prefix: None, output_index: 42, exit_code: 127 }),
        parse_divider_bytes(printed.as_bytes())
    );
}

#[test]
fn expression_strings_parse_back() {
    let maker = ExpectationMaker::new();
    for line in ["foo", "foo (glob)", "a*b (glob+)", "x (?)", "^a$ (regex*)", "\\x01 (escaped)", "z (no-eol)"] {
        let e = maker.parse(line).expect("parse");
        let rendered = e.to_expression_string(&Escaper::default_escaper());
        let again = maker.parse(&rendered).expect("parse again");
        assert_eq!(e, again, "from `{}`", line);
    }
}

#[test]
fn escaped_rendering_matches_its_line() {
    let line = b"a\x01b\\c\td\xff";
    let escaped = escaped_printable_ascii(line);
    assert_eq!("a\\x01b\\\\c\\td\\xff", escaped);
    let rule = Rule::make("escaped", &escaped).expect("rule");
    assert_eq!(RuleKind::Escaped, rule.kind);
    assert!(rule.matches(line));
    let mut with_newline = line.to_vec();
    with_newline.push(b'\n');
    assert!(rule.matches(&with_newline));
}

#[test]
fn rendered_output_lines_read_back_as_matching_expectations() {
    let maker = ExpectationMaker::new();
    let cases: Vec<(Escaper, &[u8])> = vec![
        (Escaper::Ascii, b"plain text\n"),
        (Escaper::Ascii, b"a\x01b\tc\n"),
        (Escaper::Ascii, b"with (parens) and \\ backslash\x02\n"),
        (Escaper::Unicode, "caf\u{e9} au lait\n".as_bytes()),
        (Escaper::Unicode, "bell \u{7}\u{e9}!\n".as_bytes()),
        (Escaper::Unicode, b"not utf8 \xff\n"),
    ];
    for (escaper, line) in cases {
        let rendered = escaper.escaped_expectation(line);
        let expectation = maker.parse(&rendered).expect("parse");
        assert!(!expectation.optional && !expectation.multiline);
        assert!(expectation.matches(line), "`{}` matches {:?}", rendered, line);
    }
}

#[test]
fn last_line_without_newline_reads_back() {
    let maker = ExpectationMaker::new();
    let rendered = Escaper::Ascii.escaped_expectation(b"abc");
    let expectation = maker.parse(&format!("{} (no-eol)", rendered)).expect("parse");
    assert_eq!(RuleKind::NoEol, expectation.rule.kind);
    assert!(expectation.matches(b"abc"));
    assert!(!expectation.matches(b"abc\n"));
    let escaped = Escaper::Ascii.escaped_expectation(b"a\x01");
    let expectation = maker.parse(&escaped).expect("parse");
    assert!(expectation.matches(b"a\x01"));
}

#[test]
fn printed_outputs_divide_back_into_outputs_and_codes() {
    let outs: Vec<&[u8]> = vec![b"a\nb\n", b"partial", b"", b"x\ny"];
    let codes = [0, 3, 127, 1];
    let mut stream = vec![];
    for (index, (out, code)) in outs.iter().zip(codes.iter()).enumerate() {
        stream.extend_from_slice(out);
        stream.extend_from_slice(generate_divider("s4lt", index).replace("$?", &code.to_string()).as_bytes());
        stream.push(b'\n');
    }
    let segments = scrut::executors::bash_script_executor::iterate_divided_output("STDOUT", &stream, None)
        .expect("divided");
    let expected: Vec<(usize, Vec<u8>, i32)> =
        outs.iter().zip(codes.iter()).enumerate().map(|(i, (o, c))| (i, o.to_vec(), *c)).collect();
    assert_eq!(expected, segments);
}

#[test]
fn rendered_output_validates_its_output() {
    let maker = ExpectationMaker::new();
    let stdout: &[u8] = b"first line\nsecond \x01 line\n\ncaf\xc3\xa9\n";
    for escaper in [Escaper::Ascii, Escaper::Unicode] {
        let expectations = split_at_newline(stdout)
            .iter()
            .map(|line| maker.parse(&escaper.escaped_expectation(line)).expect("parse"))
            .collect::<Vec<_>>();
        let testcase = TestCase { expectations, ..Default::default() };
        assert_eq!(Ok(()), testcase.validate(&Output::new(stdout, b"", Some(0))));
    }
}

#[test]
fn cram_testcase_reads_back() {
    let parser = scrut::parsers::cram::CramParser::default_new(std::sync::Arc::new(ExpectationMaker::new()));
    let document = "A title\n  $ echo a\n  > echo b\n  a\n  b* (glob)\n  [3]\n";
    let (_, testcases) = parser.parse(document).expect("parse");
    assert_eq!(1, testcases.len());
    let t = &testcases[0];
    assert_eq!("A title", t.title);
    assert_eq!("echo a\necho b", t.shell_expression);
    assert_eq!(2, t.expectations.len());
    assert_eq!(RuleKind::Glob, t.expectations[1].rule.kind);
    assert_eq!(Some(3), t.exit_code);
    assert_eq!(2, t.line_number);
}

#[test]
fn generated_cram_document_reads_back() {
    let maker = ExpectationMaker::new();
    let testcase = TestCase {
        title: "Two commands".to_string(),
        shell_expression: "echo a\necho b".to_string(),
        expectations: vec![maker.parse("a").expect("parse"), maker.parse("b* (glob)").expect("parse")],
        ..Default::default()
    };
    let outcome = Outcome {
        location: None,
        output: Output::new(b"a\nbc\n", b"", Some(3)),
        testcase: testcase.clone(),
        format: ParserType::Cram,
        escaping: Escaper::Ascii,
        result: Ok(()),
    };
    let document = scrut::generators::cram::CramTestCaseGenerator::new(2)
        .generate_testcases(&[outcome])
        .expect("generate");
    let parser = scrut::parsers::cram::CramParser::default_new(std::sync::Arc::new(ExpectationMaker::new()));
    let (_, testcases) = parser.parse(&document).expect("parse");
    assert_eq!(1, testcases.len());
    assert_eq!(testcase.title, testcases[0].title);
    assert_eq!(testcase.shell_expression, testcases[0].shell_expression);
    assert_eq!(testcase.expectations, testcases[0].expectations);
    assert_eq!(Some(3), testcases[0].exit_code);
}

#[test]
fn matches_cover_one_line_unless_multiline() {
    let maker = ExpectationMaker::new();
    let exps = vec![maker.parse("a").expect("parse"), maker.parse("b* (glob+)").expect("parse")];
    let diff = DiffTool::new(exps.clone()).diff(b"a\nbx\nby\n");
    assert_eq!(2, diff.lines.len());
    match &diff.lines[0] {
        DiffLine::MatchedExpectation { index, lines, .. } => {
            assert_eq!(0, *index);
            assert_eq!(vec![(0usize, b"a\n".to_vec())], *lines);
        }
        other => panic!("unexpected {other:?}"),
    }
    match &diff.lines[1] {
        DiffLine::MatchedExpectation { index, lines, .. } => {
            assert_eq!(1, *index);
            assert_eq!(vec![(1usize, b"bx\n".to_vec()), (2usize, b"by\n".to_vec())], *lines);
        }
        other => panic!("unexpected {other:?}"),
    }
}

#[test]
fn expectations_matching_line_by_line_match_exactly_their_lines() {
    let maker = ExpectationMaker::new();
    let exps = vec![maker.parse("a").expect("parse"), maker.parse("b* (glob)").expect("parse")];
    let diff = DiffTool::new(exps.clone()).diff(b"a\nbcd");
    assert!(!diff.has_differences());
    assert_eq!(
        vec![
            DiffLine::MatchedExpectation { index: 0, expectation: exps[0].clone(), lines: vec![(0, b"a\n".to_vec())] },
            DiffLine::MatchedExpectation { index: 1, expectation: exps[1].clone(), lines: vec![(1, b"bcd".to_vec())] },
        ],
        diff.lines
    );
}

#[test]
fn split_lines_have_their_newline_last() {
    assert_eq!(vec![b"l1\n".to_vec(), b"l2".to_vec()], split_at_newline(b"l1\nl2"));
    assert_eq!(vec![b"l1\n".to_vec()], split_at_newline(b"l1\n"));
    assert_eq!(vec![b"\n".to_vec(), b"\n".to_vec()], split_at_newline(b"\n\n"));
    assert!(split_at_newline(b"").is_empty());
}

#[test]
fn crlf_replacement_drops_one_byte_per_pair() {
    assert_eq!(b"\r\n".to_vec(), replace_crlf(b"\r\r\n"));
    assert_eq!(b"a\nb\n".to_vec(), replace_crlf(b"a\r\nb\r\n"));
    assert_eq!(b"a\rb\n\r".to_vec(), replace_crlf(b"a\rb\n\r"));
}

#[test]
fn ascii_rendering_is_printable_and_verbatim_when_printable() {
    assert_eq!("a\\b ~", Escaper::Ascii.escaped_printable(b"a\\b ~"));
    assert_eq!("\\x01\\\\\\n", Escaper::Ascii.escaped_printable(b"\x01\\\n"));
    let all: Vec<u8> = (0u8..=255).collect();
    assert!(Escaper::Ascii.escaped_printable(&all).bytes().all(|b| (0x20..=0x7e).contains(&b)));
}

#[test]
fn empty_output_renders_empty() {
    assert_eq!("", OutputStream(Vec::new()).to_output_string(Some("> "), &Escaper::Ascii));
    assert_eq!("> a\n> b\n", OutputStream(b"a\nb\n".to_vec()).to_output_string(Some("> "), &Escaper::Ascii));
    assert_eq!("\n", OutputStream(b"\n".to_vec()).to_output_string(None, &Escaper::Ascii));
}

#[test]
fn parsed_lines_parse_back_from_their_expression_string() {
    let maker = ExpectationMaker::new();
    for line in ["a", "a (?)", "a  (glob+)", "x* (re*)", "\\x01 (escaped)", "b (no-eol)", "c (equal)"] {
        let x = maker.parse(line).expect("parse");
        let y = maker.parse(&x.to_expression_string(&Escaper::default_escaper())).expect("parse back");
        assert_eq!(x, y, "{line}");
    }
    let x = maker.parse("a (glob) (equal)").expect("parse");
    assert_eq!("a (glob)", x.rule.expression);
    let y = maker.parse(&x.to_expression_string(&Escaper::default_escaper())).expect("parse back");
    assert_ne!(x, y);
}

#[test]
fn unmade_expectations_are_made_again() {
    let maker = ExpectationMaker::new();
    for line in ["a", "a (?)", "a* (glob+)", "x.* (re*)", "\\x01 (escaped)", "b (no-eol)"] {
        let x = maker.parse(line).expect("parse");
        let (kind, expression, optional, multiline) = x.unmake();
        let y = maker
            .make(&kind, &String::from_utf8_lossy(&expression), optional, multiline, &x.original_string())
            .expect("make");
        assert_eq!(x, y, "{line}");
    }
}

#[test]
fn printed_dividers_read_back_with_any_code_salt_and_line_feeds() {
    let printed = |salt: &str, index: usize, code: i32| {
        generate_divider(salt, index).replace("$?", &code.to_string())
    };
    let line = format!("out\nmore{}\n\n\n", printed("sälz", 3, -7));
    assert_eq!(
        Ok(DividerSearch::Found { prefix: Some(b"out\nmore".to_vec()), output_index: 3, exit_code: -7 }),
        parse_divider_bytes(line.as_bytes())
    );
    let line = printed("abc", 0, i32::MIN);
    assert_eq!(
        Ok(DividerSearch::Found { prefix: None, output_index: 0, exit_code: i32::MIN }),
        parse_divider_bytes(line.as_bytes())
    );
    assert_eq!(Ok(DividerSearch::NotFound), parse_divider_bytes(b"no divider here\n\n"));
}

#[test]
fn plain_ascii_renders_unchanged_in_both_flavours() {
    for escaper in [Escaper::Ascii, Escaper::Unicode] {
        assert_eq!("foo", escaper.escaped_printable(b"foo"));
        assert_eq!("foo", escaper.escaped_expectation(b"foo\n"));
        assert!(!escaper.has_unprintable(b"a\\b ~"));
    }
}

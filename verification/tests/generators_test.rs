use scrut::config::{TestCaseConfig, TestCaseWait};
use scrut::diff::{Diff, DiffLine};
use scrut::escaping::Escaper;
use scrut::expectation::{Expectation, ExpectationMaker};
use scrut::generators::cram::{cram_indented, CramTestCaseGenerator, CramUpdateGenerator};
use scrut::generators::generator::{TestCaseGenerator, UpdateGenerator};
use scrut::generators::markdown::{max_backtick_size, MarkdownTestCaseGenerator, MarkdownUpdateGenerator};
use scrut::outcome::Outcome;
use scrut::output::Output;
use scrut::parsers::parser::ParserType;
use scrut::testcase::{TestCase, TestCaseError};

fn exp(kind: &str, expression: &str) -> Expectation {
    exp5(kind, expression, false, false, &format!("{} ({})", expression, kind))
}

fn exp5(kind: &str, expression: &str, optional: bool, multiline: bool, original: &str) -> Expectation {
    ExpectationMaker::new()
        .make(kind, expression, optional, multiline, original)
        .expect("create test expectation")
}

fn output(stdout: &str, stderr: &str, code: Option<i32>) -> Output {
    Output::new(stdout.as_bytes(), stderr.as_bytes(), Some(code.unwrap_or(0)))
}

fn testcase(title: &str, shell_expression: &str, expectations: Vec<Expectation>, exit_code: Option<i32>) -> TestCase {
    TestCase {
        title: title.to_string(),
        shell_expression: shell_expression.to_string(),
        expectations,
        exit_code,
        line_number: 234,
        ..Default::default()
    }
}

fn malformed(lines: Vec<DiffLine>) -> Result<(), TestCaseError> {
    Err(TestCaseError::MalformedOutput(Diff::new(lines)))
}

fn unexpected(lines: &[&str]) -> DiffLine {
    DiffLine::UnexpectedLines {
        lines: lines.iter().enumerate().map(|(i, l)| (i, l.as_bytes().to_vec())).collect(),
    }
}

fn outcome(testcase: TestCase, output: Output, result: Result<(), TestCaseError>, format: ParserType) -> Outcome {
    Outcome { location: None, output, testcase, result, escaping: Escaper::default_escaper(), format }
}

/// The outcomes of the standard suite, with the documents expected from them
/// (Cram, Markdown).
fn standard_suite() -> Vec<(&'static str, Outcome, &'static str, &'static str)> {
    vec![
        (
            "equal_output",
            outcome(
                testcase("This is a test", "the command", vec![], None),
                output("the output\n", "", None),
                malformed(vec![unexpected(&["the output\n"])]),
                ParserType::Markdown,
            ),
            "This is a test\n  $ the command\n  the output\n",
            "# This is a test\n\n```scrut\n$ the command\nthe output\n```\n",
        ),
        (
            "no-eol_output",
            outcome(
                testcase("This is a test", "the command", vec![], None),
                output("the output", "", None),
                malformed(vec![unexpected(&["the output"])]),
                ParserType::Markdown,
            ),
            "This is a test\n  $ the command\n  the output (no-eol)\n",
            "# This is a test\n\n```scrut\n$ the command\nthe output (no-eol)\n```\n",
        ),
        (
            "multiline_output",
            outcome(
                testcase("This is a test", "the command", vec![], None),
                output("line 1\nline 2\n line3", "", None),
                malformed(vec![unexpected(&["line 1\n", "line 2\n", "line 3"])]),
                ParserType::Markdown,
            ),
            "This is a test\n  $ the command\n  line 1\n  line 2\n  line 3 (no-eol)\n",
            "# This is a test\n\n```scrut\n$ the command\nline 1\nline 2\nline 3 (no-eol)\n```\n",
        ),
        (
            "multiline_command",
            outcome(
                testcase("This is a test", "echo \\\nsomething", vec![], None),
                output("the output\n", "", None),
                malformed(vec![unexpected(&["the output\n"])]),
                ParserType::Markdown,
            ),
            "This is a test\n  $ echo \\\n  > something\n  the output\n",
            "# This is a test\n\n```scrut\n$ echo \\\n> something\nthe output\n```\n",
        ),
        (
            "non-zero_exit_code",
            outcome(
                testcase("This is a test", "the command", vec![], Some(123)),
                output("the output\n", "", Some(123)),
                malformed(vec![unexpected(&["the output\n"])]),
                ParserType::Markdown,
            ),
            "This is a test\n  $ the command\n  the output\n  [123]\n",
            "# This is a test\n\n```scrut\n$ the command\nthe output\n[123]\n```\n",
        ),
    ]
}

#[test]
fn cram_test_testcase_generator() {
    let generator = CramTestCaseGenerator::default();
    for (title, outcome, expected, _) in standard_suite() {
        let result = generator
            .generate_testcases(&[outcome])
            .unwrap_or_else(|_| panic!("test {}", title));
        assert_eq!(expected, result, "create__cram__{}", title);
    }
}

#[test]
fn markdown_test_testcase_generator() {
    let generator = MarkdownTestCaseGenerator::new("scrut");
    for (title, outcome, _, expected) in standard_suite() {
        let result = generator
            .generate_testcases(&[outcome], &["".to_string()])
            .unwrap_or_else(|_| panic!("test {}", title));
        assert_eq!(expected, result, "create__markdown__{}", title);
    }
}

#[test]
fn cram_test_update_generator() {
    let tests = vec![
        (
            "simple_unchanged",
            "This is a test\n  $ the command\n  an expectation\n",
            outcome(
                testcase(
                    "This is a test",
                    "the command",
                    vec![exp5("equal", "an expectation", false, false, "an expectation")],
                    None,
                ),
                output("an expectation\n", "", None),
                Ok(()),
                ParserType::Cram,
            ),
            "This is a test\n  $ the command\n  an expectation\n",
        ),
        (
            "complex_unchanged",
            "This is a test\n  $ the command\n  line * (glob+)\n",
            outcome(
                testcase(
                    "This is a test",
                    "the command",
                    vec![exp5("glob", "line *", false, true, "line * (glob+)")],
                    None,
                ),
                output("line 1\nline 2\nline 3\n", "", None),
                Ok(()),
                ParserType::Cram,
            ),
            "This is a test\n  $ the command\n  line * (glob+)\n",
        ),
        (
            "updated_output",
            "This is a test\n  $ the command\n  an expectation\n",
            outcome(
                testcase("This is a test", "the command", vec![exp("equal", "an expectation")], None),
                output("new output\n", "", None),
                malformed(vec![
                    DiffLine::UnmatchedExpectation { index: 0, expectation: exp("equal", "an expectation") },
                    unexpected(&["new output\n"]),
                ]),
                ParserType::Cram,
            ),
            "This is a test\n  $ the command\n  new output\n",
        ),
    ];
    let generator = CramUpdateGenerator::default();
    for (title, document, outcome, expected) in tests {
        let result = generator.generate_update(document, &[outcome]).expect(title);
        assert_eq!(expected, result, "update__cram__{}", title);
    }
}

fn md_outcome(stdout: &str, code: Option<i32>, title: &str, command: &str, expectations: Vec<Expectation>, result: Result<(), TestCaseError>) -> Outcome {
    outcome(testcase(title, command, expectations, None), output(stdout, "", code), result, ParserType::Markdown)
}

fn new_output(line: &str, expectation: &str) -> Result<(), TestCaseError> {
    malformed(vec![
        DiffLine::UnmatchedExpectation { index: 0, expectation: exp("equal", expectation) },
        unexpected(&[line]),
    ])
}

#[test]
fn markdown_test_update_generator() {
    let doc = |lines: &[&str]| lines.join("\n") + "\n";
    let configured = |mut o: Outcome| {
        o.testcase.config = TestCaseConfig {
            timeout: Some((3 * 60 + 4) * 1000),
            wait: Some(TestCaseWait { timeout: (4 * 60 + 5) * 1000, path: Some("some-path".to_string()) }),
            ..Default::default()
        };
        o
    };
    let tests: Vec<(&str, String, Vec<Outcome>, String)> = vec![
        (
            "simple_unchanged",
            doc(&["# This is a test", "", "```scrut", "$ the command", "an expectation", "```"]),
            vec![md_outcome(
                "an expectation\n",
                None,
                "This is a test",
                "the command",
                vec![exp5("equal", "an expectation", false, false, "an expectation")],
                Ok(()),
            )],
            doc(&["# This is a test", "", "```scrut", "$ the command", "an expectation", "```"]),
        ),
        (
            "complex_unchanged",
            doc(&["This is a test", "", "```scrut", "$ the command", "line * (glob+)", "```"]),
            vec![md_outcome(
                "line 1\nline 2\nline 3\n",
                None,
                "This is a test",
                "the command",
                vec![exp5("glob", "line *", false, true, "line * (glob+)")],
                Ok(()),
            )],
            doc(&["This is a test", "", "```scrut", "$ the command", "line * (glob+)", "```"]),
        ),
        (
            "updated_output_expectations",
            doc(&["This is a test", "", "```scrut", "$ the command", "an expectation", "```"]),
            vec![md_outcome(
                "new output\n",
                None,
                "This is a test",
                "the command",
                vec![exp("equal", "an expectation")],
                new_output("new output\n", "an expectation"),
            )],
            doc(&["This is a test", "", "```scrut", "$ the command", "new output", "```"]),
        ),
        (
            "updated_output_none_zero_exit_code",
            doc(&["This is a test", "", "```scrut", "$ the command", "same output", "```"]),
            vec![md_outcome(
                "same output\n",
                Some(10),
                "This is a test",
                "the command",
                vec![exp("equal", "same output")],
                Err(TestCaseError::InvalidExitCode { actual: 10, expected: 0 }),
            )],
            doc(&["This is a test", "", "```scrut", "$ the command", "same output", "[10]", "```"]),
        ),
        (
            "updated_output_non_0_exit_no_output",
            doc(&["This is a test", "", "```scrut", "$ the command", "```"]),
            vec![md_outcome(
                "",
                Some(10),
                "This is a test",
                "the command",
                vec![],
                Err(TestCaseError::InvalidExitCode { actual: 10, expected: 0 }),
            )],
            doc(&["This is a test", "", "```scrut", "$ the command", "[10]", "```"]),
        ),
        (
            "updated_output_changed_exit_code",
            doc(&["This is a test", "", "```scrut", "$ the command", "same output", "[10]", "```"]),
            vec![md_outcome(
                "same output\n",
                Some(20),
                "This is a test",
                "the command",
                vec![exp("equal", "same output")],
                Err(TestCaseError::InvalidExitCode { actual: 20, expected: 10 }),
            )],
            doc(&["This is a test", "", "```scrut", "$ the command", "same output", "[20]", "```"]),
        ),
        (
            "use_minimal_amount_of_backticks",
            doc(&["This is a test", "", "````scrut", "$ the command", "old output", "````"]),
            vec![md_outcome(
                "new output\n",
                None,
                "This is a test",
                "the command",
                vec![exp("equal", "an expectation")],
                new_output("new output\n", "an expectation"),
            )],
            doc(&["This is a test", "", "```scrut", "$ the command", "new output", "```"]),
        ),
        (
            "adjust_to_right_amount_of_backticks",
            doc(&["This is a test", "", "````scrut", "$ the command", "old output", "````"]),
            vec![md_outcome(
                "````\nnew output\n````\n",
                None,
                "This is a test",
                "the command",
                vec![exp("equal", "an expectation")],
                malformed(vec![
                    DiffLine::UnmatchedExpectation { index: 0, expectation: exp("equal", "an expectation") },
                    unexpected(&["````\n", "new output\n", "````\n"]),
                ]),
            )],
            doc(&["This is a test", "", "`````scrut", "$ the command", "````", "new output", "````", "`````"]),
        ),
        (
            "per_document_config",
            doc(&[
                "---",
                "total_timeout: 2m 3s",
                "defaults:",
                "  timeout: 3m 4s",
                "---",
                "",
                "This is a test",
                "",
                "```scrut",
                "$ the command",
                "old output",
                "```",
            ]),
            vec![configured(md_outcome(
                "new output\n",
                None,
                "This is a test",
                "the command",
                vec![exp("equal", "an expectation")],
                new_output("new output\n", "an expectation"),
            ))],
            doc(&[
                "---",
                "total_timeout: 2m 3s",
                "defaults:",
                "  timeout: 3m 4s",
                "---",
                "",
                "This is a test",
                "",
                "```scrut",
                "$ the command",
                "new output",
                "```",
            ]),
        ),
        (
            "per_test_config",
            doc(&[
                "This is a test",
                "",
                "```scrut {timeout: 3m 4s, wait: {timeout: 4m 5s, path: some-path}}",
                "$ the command",
                "old output",
                "```",
            ]),
            vec![configured(md_outcome(
                "new output\n",
                None,
                "This is a test",
                "the command",
                vec![exp("equal", "an expectation")],
                new_output("new output\n", "an expectation"),
            ))],
            doc(&[
                "This is a test",
                "",
                "```scrut {{timeout: 3m 4s, wait: {timeout: 4m 5s, path: some-path}}}",
                "$ the command",
                "new output",
                "```",
            ]),
        ),
        (
            "comments_in_code",
            doc(&["This is a test", "", "```scrut", "# some comment before", "$ the command", "old output", "```"]),
            vec![md_outcome(
                "new output\n",
                None,
                "This is a test",
                "the command",
                vec![exp("equal", "an expectation")],
                new_output("new output\n", "an expectation"),
            )],
            doc(&["This is a test", "", "```scrut", "# some comment before", "$ the command", "new output", "```"]),
        ),
        (
            "updated_only_testcases",
            doc(&[
                "# this is a document",
                "",
                "there are many lines",
                "",
                "```rust",
                "println!(\"including code\");",
                "```",
                "",
                "## Then there is a test",
                "",
                "```scrut",
                "$ the command 1",
                "old output 1",
                "```",
                "",
                "Followed by other stuff",
                "",
                "",
                "",
                "Followed by another test",
                "",
                "```scrut",
                "$ the command 2",
                "old output 2",
                "```",
                "",
                "ultimately ending in stuff",
            ]),
            vec![
                md_outcome(
                    "new output ONE\n",
                    None,
                    "Then there is a test",
                    "the command 1",
                    vec![exp("equal", "old output 1")],
                    new_output("new output ONE\n", "old output 1"),
                ),
                md_outcome(
                    "new output ZWEI\n",
                    None,
                    "Followed by another test",
                    "the command 2",
                    vec![exp("equal", "old output 2")],
                    new_output("new output ZWEI\n", "old output 2"),
                ),
            ],
            doc(&[
                "# this is a document",
                "",
                "there are many lines",
                "",
                "```rust",
                "println!(\"including code\");",
                "```",
                "",
                "## Then there is a test",
                "",
                "```scrut",
                "$ the command 1",
                "new output ONE",
                "```",
                "",
                "Followed by other stuff",
                "",
                "",
                "",
                "Followed by another test",
                "",
                "```scrut",
                "$ the command 2",
                "new output ZWEI",
                "```",
                "",
                "ultimately ending in stuff",
            ]),
        ),
    ];

    let generator = MarkdownUpdateGenerator::new(&["scrut", "testcase"]);
    for (title, document, outcomes, expected) in tests {
        let result = generator.generate_update(&document, &outcomes).expect(title);
        assert_eq!(expected, result, "update__markdown__{}", title);
    }
}

#[test]
fn update_without_outcomes_keeps_the_document() {
    let generator = MarkdownUpdateGenerator::new(&["scrut"]);
    assert_eq!("anything\n```scrut\n", generator.generate_update("anything\n```scrut\n", &[]).unwrap());
    let cram = CramUpdateGenerator::new(2);
    assert_eq!("as is", cram.generate_update("as is", &[]).unwrap());
}

#[test]
fn skipped_outcome_cannot_be_generated() {
    let o = md_outcome("", None, "t", "cmd", vec![], Err(TestCaseError::Skipped));
    assert_eq!(Err("cannot generate skipped testcase".to_string()), o.generate_testcase());
    let o = md_outcome("", None, "t", "cmd", vec![], Err(TestCaseError::InternalError("boom".to_string())));
    assert_eq!(
        Err("cannot generate testcase from internal error: boom".to_string()),
        CramTestCaseGenerator::new(2).generate_testcases(&[o])
    );
}

#[test]
fn markdown_update_reports_failing_testcase_number() {
    let generator = MarkdownUpdateGenerator::new(&["scrut"]);
    let o = md_outcome("", None, "t", "cmd", vec![], Err(TestCaseError::Skipped));
    assert_eq!(
        Err("testcase number 1".to_string()),
        generator.generate_update("```scrut\n$ cmd\n```\n", &[o])
    );
}

#[test]
fn backtick_sizes() {
    assert_eq!(2, max_backtick_size("no backticks\n"));
    assert_eq!(4, max_backtick_size("````\n`x\n"));
    assert_eq!(5, max_backtick_size("a\n`````b"));
}

#[test]
fn indention_of_cram_bodies() {
    assert_eq!("", cram_indented("  ", ""));
    assert_eq!("  a\n  b\n", cram_indented("  ", "a\nb\n\n"));
    assert_eq!("    x\n", cram_indented("    ", "x"));
}

#[test]
fn markdown_testcase_generator_writes_configuration() {
    let generator = MarkdownTestCaseGenerator::new("scrut");
    let o = md_outcome("a\n", None, "", "cmd", vec![], Ok(()));
    assert_eq!(
        "```scrut {timeout: 1s}\n$ cmd\n```\n",
        generator.generate_testcases(&[o], &["{timeout: 1s}".to_string()]).unwrap()
    );
}

#[test]
fn several_testcases_are_separated_by_empty_lines() {
    let a = md_outcome("", None, "A", "a", vec![], Ok(()));
    let b = md_outcome("", None, "", "b", vec![], Ok(()));
    assert_eq!(
        "A\n  $ a\n\n\n  $ b\n",
        CramTestCaseGenerator::new(2).generate_testcases(&[a, b]).unwrap()
    );
}

fn update_through<G: UpdateGenerator>(generator: &G, document: &str, outcomes: &[Outcome]) -> Result<String, String> {
    UpdateGenerator::generate_update(generator, document, outcomes)
}

fn generate_through<G: TestCaseGenerator>(generator: &G, outcomes: &[Outcome]) -> Result<String, String> {
    TestCaseGenerator::generate_testcases(generator, outcomes)
}

#[test]
fn generators_through_their_traits() {
    let o = md_outcome("", None, "t", "cmd", vec![], Err(TestCaseError::Skipped));
    assert_eq!(
        Err("testcase number 1".to_string()),
        update_through(&MarkdownUpdateGenerator::new(&["scrut"]), "```scrut\n$ cmd\n```\n", &[o])
    );
    let o = md_outcome("", None, "t", "cmd", vec![], Err(TestCaseError::Skipped));
    assert_eq!(Ok("as is".to_string()), update_through(&CramUpdateGenerator::new(2), "as is", &[]));
    assert_eq!(
        Err("cannot generate skipped testcase".to_string()),
        generate_through(&CramTestCaseGenerator::new(2), &[o])
    );
}

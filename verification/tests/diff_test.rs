use scrut::diff::{Diff, DiffLine, DiffTool};
use scrut::expectation::{Expectation, ExpectationMaker};

fn exp(kind: &str, expression: &str) -> Expectation {
    exp4(kind, expression, false, false)
}

fn exp4(kind: &str, expression: &str, optional: bool, multiline: bool) -> Expectation {
    ExpectationMaker::new()
        .make(kind, expression, optional, multiline, &format!("{} ({})", expression, kind))
        .expect("create test expectation")
}

fn blines(lines: &[&str]) -> Vec<u8> {
    (lines.join("\n") + "\n").as_bytes().to_vec()
}

fn make() -> DiffTool {
    DiffTool { expectations: vec![exp("equal", "foo"), exp("equal", "bar"), exp("equal", "baz")] }
}

fn matched(index: usize, expectation: Expectation, lines: &[(usize, &str)]) -> DiffLine {
    DiffLine::MatchedExpectation {
        index,
        expectation,
        lines: lines.iter().map(|(i, l)| (*i, format!("{}\n", l).into_bytes())).collect(),
    }
}

fn unmatched(index: usize, expectation: Expectation) -> DiffLine {
    DiffLine::UnmatchedExpectation { index, expectation }
}

fn unexpected(lines: &[(usize, &str)]) -> DiffLine {
    DiffLine::UnexpectedLines {
        lines: lines.iter().map(|(i, l)| (*i, format!("{}\n", l).into_bytes())).collect(),
    }
}

#[test]
fn test_exact_match() {
    let differ = DiffTool { expectations: vec![exp("equal", "foo")] };
    let diffs = differ.diff(b"foo\n");
    assert_eq!(vec![matched(0, exp("equal", "foo"), &[(0, "foo")])], diffs.lines);
    assert!(!diffs.has_differences());
    assert_eq!(1, diffs.count_matched);
}

#[test]
fn test_exact_no_match() {
    let differ = DiffTool { expectations: vec![exp("equal", "bar")] };
    let diffs = differ.diff(b"foo\n");
    assert_eq!(
        vec![unmatched(0, exp("equal", "bar")), unexpected(&[(0, "foo")])],
        diffs.lines
    );
    assert!(diffs.has_differences());
}

#[test]
fn test_quantifiers_optional() {
    let tests = &[
        (DiffTool { expectations: vec![exp4("equal", "foo", false, false)] }, vec![], false),
        (DiffTool { expectations: vec![exp4("equal", "foo", false, false)] }, blines(&["foo"]), true),
        (DiffTool { expectations: vec![exp4("equal", "foo", true, false)] }, vec![], true),
        (DiffTool { expectations: vec![exp4("equal", "foo", true, false)] }, blines(&["foo"]), true),
        (
            DiffTool {
                expectations: vec![
                    exp4("equal", "foo", false, false),
                    exp4("equal", "bar", false, false),
                    exp4("equal", "baz", false, false),
                ],
            },
            blines(&["foo", "bar", "baz"]),
            true,
        ),
        (
            DiffTool {
                expectations: vec![
                    exp4("equal", "foo", true, false),
                    exp4("equal", "bar", true, false),
                    exp4("equal", "baz", true, false),
                ],
            },
            blines(&["foo", "bar", "baz"]),
            true,
        ),
        (
            DiffTool {
                expectations: vec![
                    exp4("equal", "foo", true, false),
                    exp4("equal", "bar", true, false),
                    exp4("equal", "baz", true, false),
                ],
            },
            blines(&["bar", "baz"]),
            true,
        ),
        (
            DiffTool {
                expectations: vec![
                    exp4("equal", "foo", true, false),
                    exp4("equal", "bar", true, false),
                    exp4("equal", "baz", true, false),
                ],
            },
            blines(&["foo", "baz"]),
            true,
        ),
        (
            DiffTool {
                expectations: vec![
                    exp4("equal", "foo", true, false),
                    exp4("equal", "bar", true, false),
                    exp4("equal", "baz", true, false),
                ],
            },
            blines(&["foo", "bar"]),
            true,
        ),
        (
            DiffTool {
                expectations: vec![
                    exp4("equal", "foo", true, false),
                    exp4("equal", "bar", true, false),
                    exp4("equal", "baz", true, false),
                ],
            },
            vec![],
            true,
        ),
    ];

    for (idx, (differ, lines, expect)) in tests.iter().enumerate() {
        let diffs = differ.diff(lines);
        assert_eq!(
            !diffs.has_differences(),
            *expect,
            "test {}: for input empty = {} with optional = {} -> {:?}",
            idx + 1,
            lines.is_empty(),
            differ.expectations[0].optional,
            diffs
        )
    }
}

#[test]
fn test_unmatched_middle_expectation() {
    let diffs = make().diff(&blines(&["foo", "baz"]));
    assert_eq!(
        vec![
            matched(0, exp("equal", "foo"), &[(0, "foo")]),
            unmatched(1, exp("equal", "bar")),
            matched(2, exp("equal", "baz"), &[(1, "baz")]),
        ],
        diffs.lines
    );
}

#[test]
fn test_unmatched_tailing_expectation() {
    let diffs = make().diff(&blines(&["foo", "bar"]));
    assert_eq!(
        vec![
            matched(0, exp("equal", "foo"), &[(0, "foo")]),
            matched(1, exp("equal", "bar"), &[(1, "bar")]),
            unmatched(2, exp("equal", "baz")),
        ],
        diffs.lines
    );
}

#[test]
fn test_unmatched_and_unexpected() {
    let diffs = make().diff(&blines(&["foo", "bar", "zoing"]));
    assert_eq!(
        vec![
            matched(0, exp("equal", "foo"), &[(0, "foo")]),
            matched(1, exp("equal", "bar"), &[(1, "bar")]),
            unmatched(2, exp("equal", "baz")),
            unexpected(&[(2, "zoing")]),
        ],
        diffs.lines
    );
}

#[test]
fn test_unmatched_heading_expectation() {
    let diffs = make().diff(&blines(&["bar", "baz"]));
    assert_eq!(
        vec![
            unmatched(0, exp("equal", "foo")),
            matched(1, exp("equal", "bar"), &[(0, "bar")]),
            matched(2, exp("equal", "baz"), &[(1, "baz")]),
        ],
        diffs.lines
    );
}

#[test]
fn test_unexpected_heading_lines() {
    let diffs = make().diff(&blines(&["something", "bla", "foo", "bar", "baz"]));
    assert_eq!(
        vec![
            unexpected(&[(0, "something"), (1, "bla")]),
            matched(0, exp("equal", "foo"), &[(2, "foo")]),
            matched(1, exp("equal", "bar"), &[(3, "bar")]),
            matched(2, exp("equal", "baz"), &[(4, "baz")]),
        ],
        diffs.lines
    );
}

#[test]
fn test_unexpected_intermediate_lines() {
    let diffs = make().diff(&blines(&["foo", "bar", "something", "bla", "baz"]));
    assert_eq!(
        vec![
            matched(0, exp("equal", "foo"), &[(0, "foo")]),
            matched(1, exp("equal", "bar"), &[(1, "bar")]),
            unexpected(&[(2, "something"), (3, "bla")]),
            matched(2, exp("equal", "baz"), &[(4, "baz")]),
        ],
        diffs.lines
    );
}

#[test]
fn test_unexpected_tailing_lines() {
    let diffs = make().diff(&blines(&["foo", "bar", "baz", "something", "more"]));
    assert_eq!(
        vec![
            matched(0, exp("equal", "foo"), &[(0, "foo")]),
            matched(1, exp("equal", "bar"), &[(1, "bar")]),
            matched(2, exp("equal", "baz"), &[(2, "baz")]),
            unexpected(&[(3, "something"), (4, "more")]),
        ],
        diffs.lines
    );
}

#[test]
fn test_unused_expectations() {
    let diffs = make().diff(&blines(&["foo"]));
    assert_eq!(
        vec![
            matched(0, exp("equal", "foo"), &[(0, "foo")]),
            unmatched(1, exp("equal", "bar")),
            unmatched(2, exp("equal", "baz")),
        ],
        diffs.lines
    );
}

#[test]
fn test_multiline_expectation() {
    let differ = DiffTool { expectations: vec![exp4("glob", "f*", false, true)] };
    let diffs = differ.diff(&blines(&["foo", "fun", "fact"]));
    assert_eq!(
        vec![matched(0, exp4("glob", "f*", false, true), &[(0, "foo"), (1, "fun"), (2, "fact")])],
        diffs.lines
    );
}

#[test]
fn test_starting_multiline_expectation() {
    let differ = DiffTool {
        expectations: vec![exp4("glob", "f*", false, true), exp4("equal", "bar", false, true)],
    };
    let diffs = differ.diff(&blines(&["foo", "fun", "fact", "bar"]));
    assert_eq!(
        vec![
            matched(0, exp4("glob", "f*", false, true), &[(0, "foo"), (1, "fun"), (2, "fact")]),
            matched(1, exp4("equal", "bar", false, true), &[(3, "bar")]),
        ],
        diffs.lines
    );
}

#[test]
fn test_middle_multiline_expectation() {
    let differ = DiffTool {
        expectations: vec![
            exp4("equal", "baz", false, true),
            exp4("glob", "f*", false, true),
            exp4("equal", "bar", false, true),
        ],
    };
    let diffs = differ.diff(&blines(&["baz", "foo", "fun", "fact", "bar"]));
    assert_eq!(
        vec![
            matched(0, exp4("equal", "baz", false, true), &[(0, "baz")]),
            matched(1, exp4("glob", "f*", false, true), &[(1, "foo"), (2, "fun"), (3, "fact")]),
            matched(2, exp4("equal", "bar", false, true), &[(4, "bar")]),
        ],
        diffs.lines
    );
}

#[test]
fn test_tailing_multiline_expectation() {
    let differ = DiffTool {
        expectations: vec![exp4("equal", "baz", false, true), exp4("glob", "f*", false, true)],
    };
    let diffs = differ.diff(&blines(&["baz", "foo", "fun", "fact"]));
    assert_eq!(
        vec![
            matched(0, exp4("equal", "baz", false, true), &[(0, "baz")]),
            matched(1, exp4("glob", "f*", false, true), &[(1, "foo"), (2, "fun"), (3, "fact")]),
        ],
        diffs.lines
    );
}

#[test]
fn test_regression_excess_expectations_after_multiline_fail() {
    let differ = DiffTool {
        expectations: vec![exp4("glob", "*", false, true), exp4("equal", "bar", false, true)],
    };
    let diffs = differ.diff(&blines(&["foo", "foo", "baz"]));
    assert_eq!(
        vec![
            matched(0, exp4("glob", "*", false, true), &[(0, "foo"), (1, "foo"), (2, "baz")]),
            unmatched(1, exp4("equal", "bar", false, true)),
        ],
        diffs.lines
    );
    assert!(diffs.has_differences());
}

#[test]
fn test_matching_non_multiline_precedent_over_matching_multiline() {
    let differ = DiffTool {
        expectations: vec![exp4("glob", "*", false, true), exp4("equal", "bar", false, true)],
    };
    let diffs = differ.diff(&blines(&["foo", "foo", "bar"]));
    assert_eq!(
        vec![
            matched(0, exp4("glob", "*", false, true), &[(0, "foo"), (1, "foo")]),
            matched(1, exp4("equal", "bar", false, true), &[(2, "bar")]),
        ],
        diffs.lines
    );
    assert!(!diffs.has_differences());
}

#[test]
fn test_next_expectation_is_used_first() {
    let differ = DiffTool {
        expectations: vec![
            exp("equal", "foo"),
            exp("equal", ""),
            exp("equal", "bar"),
            exp("equal", ""),
            exp("equal", "baz"),
            exp("equal", ""),
            exp("equal", "zoing"),
        ],
    };
    let diffs = differ.diff(&blines(&["foo", "", "baz", "", "zoing"]));
    assert_eq!(
        vec![
            matched(0, exp("equal", "foo"), &[(0, "foo")]),
            matched(1, exp("equal", ""), &[(1, "")]),
            unmatched(2, exp("equal", "bar")),
            unmatched(3, exp("equal", "")),
            matched(4, exp("equal", "baz"), &[(2, "baz")]),
            matched(5, exp("equal", ""), &[(3, "")]),
            matched(6, exp("equal", "zoing"), &[(4, "zoing")]),
        ],
        diffs.lines
    );
}

#[test]
fn counts_of_a_diff() {
    let diffs = make().diff(&blines(&["foo", "x"]));
    assert_eq!(1, diffs.count_matched);
    assert_eq!(2, diffs.count_unmatched);
    assert_eq!(2, diffs.count_output_lines);
    let again = Diff::new(diffs.lines.clone());
    assert_eq!(diffs, again);
}

#[test]
fn every_line_is_reported_once() {
    let diffs = make().diff(&blines(&["a", "foo", "b", "baz", "c"]));
    let mut seen = vec![];
    for line in &diffs.lines {
        match line {
            DiffLine::MatchedExpectation { lines, .. } | DiffLine::UnexpectedLines { lines } => {
                seen.extend(lines.iter().map(|(i, _)| *i))
            }
            DiffLine::UnmatchedExpectation { .. } => {}
        }
    }
    assert_eq!(vec![0, 1, 2, 3, 4], seen);
}

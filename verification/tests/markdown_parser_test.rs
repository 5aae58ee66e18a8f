use std::sync::Arc;

use scrut::config::{TestCaseConfig, TestCaseWait};
use scrut::expectation::{Expectation, ExpectationMaker};
use scrut::parsers::line_parser::ParseError;
use scrut::parsers::markdown::{
    extract_code_block_start, extract_title, MarkdownIterator, MarkdownParser, MarkdownToken,
};
use scrut::testcase::TestCase;

fn parser() -> MarkdownParser {
    MarkdownParser::default_new(Arc::new(ExpectationMaker::new()))
}

fn exp(kind: &str, expression: &str) -> Expectation {
    exp4(kind, expression, false, false)
}

fn exp4(kind: &str, expression: &str, optional: bool, multiline: bool) -> Expectation {
    ExpectationMaker::new()
        .make(kind, expression, optional, multiline, &format!("{} ({})", expression, kind))
        .expect("create test expectation")
}

fn front_matter(tokens: &[MarkdownToken]) -> Vec<(usize, String)> {
    let mut lines = vec![];
    for token in tokens {
        if let MarkdownToken::DocumentConfig(config) = token {
            lines = config.clone();
        }
    }
    lines
}

fn count_blocks(tokens: &[MarkdownToken]) -> usize {
    tokens.iter().filter(|t| matches!(t, MarkdownToken::TestCodeBlock { .. })).count()
}

/// Parses a document whose code blocks carry no configuration; gives the
/// raw lines of the front matter and the test cases.
fn parse(text: &str) -> Result<(Vec<(usize, String)>, Vec<TestCase>), ParseError> {
    let parser = parser();
    let tokens = parser.tokens(text);
    let configs = vec![None; count_blocks(&tokens)];
    let testcases = parser.parse_tokens(&tokens, configs)?;
    Ok((front_matter(&tokens), testcases))
}

#[test]
fn test_document_config() {
    let cram_test = r#"
---
total_timeout: 3m 3s
shell: some-shell
---

This is a title

```scrut
$ echo hello
hello
```
"#;
    let (config, testcases) = parse(cram_test).expect("must parse");
    assert_eq!(
        vec![(2, "total_timeout: 3m 3s".to_string()), (3, "shell: some-shell".to_string())],
        config,
        "front matter lines are handed out"
    );
    assert_eq!(1, testcases.len());
    assert_eq!(
        TestCase {
            shell_expression: "echo hello".to_string(),
            expectations: vec![exp4("equal", "hello", false, false)],
            title: "This is a title".to_string(),
            exit_code: None,
            line_number: 10,
            ..Default::default()
        },
        testcases[0]
    );
}

#[test]
fn test_testcase_config() {
    let cram_test = r#"
This is a title

```scrut {timeout: 3m 3s, wait: 4m 4s}
$ echo hello
hello
```
"#;
    let parser = parser();
    let tokens = parser.tokens(cram_test);
    match &tokens[3] {
        MarkdownToken::TestCodeBlock { config_lines, .. } => assert_eq!(
            &vec![(3, "{timeout: 3m 3s, wait: 4m 4s}".to_string())],
            config_lines
        ),
        other => panic!("unexpected token {other:?}"),
    }
    let config = TestCaseConfig {
        timeout: Some((3 * 60 + 3) * 1000),
        wait: Some(TestCaseWait { timeout: (4 * 60 + 4) * 1000, path: None }),
        ..Default::default()
    };
    let testcases = parser.parse_tokens(&tokens, vec![Some(config.clone())]).expect("must parse");
    assert!(front_matter(&tokens).is_empty(), "no extra configuration");
    assert_eq!(1, testcases.len());
    assert_eq!(
        TestCase {
            shell_expression: "echo hello".to_string(),
            expectations: vec![exp4("equal", "hello", false, false)],
            title: "This is a title".to_string(),
            exit_code: None,
            line_number: 5,
            config,
        },
        testcases[0]
    );
}

#[test]
fn test_markdown_simple() {
    let cram_test = r#"
This is a title

```scrut
$ echo hello
hello
```
"#;
    let (config, testcases) = parse(cram_test).expect("must parse");
    assert_eq!(config, Vec::<(usize, String)>::new(), "no extra configuration");
    assert_eq!(1, testcases.len());
    assert_eq!(
        TestCase {
            shell_expression: "echo hello".to_string(),
            expectations: vec![exp4("equal", "hello", false, false)],
            title: "This is a title".to_string(),
            exit_code: None,
            line_number: 5,
            ..Default::default()
        },
        testcases[0]
    );
}

#[test]
fn test_title_from_nearest_line() {
    let cram_test = r#"
Something here

Something there

This is a title

```scrut
$ echo hello
hello
```
"#;
    let (_, testcases) = parse(cram_test).expect("must parse");
    assert_eq!(1, testcases.len());
    assert_eq!(
        TestCase {
            shell_expression: "echo hello".to_string(),
            expectations: vec![exp4("equal", "hello", false, false)],
            title: "This is a title".to_string(),
            exit_code: None,
            line_number: 9,
            ..Default::default()
        },
        testcases[0]
    );
}

#[test]
fn test_title_from_full_paragraph() {
    let cram_test = r#"
Not a title

This is a title
This is still part of it
And another part of the title

```scrut
$ echo hello
hello
```
"#;
    let (_, testcases) = parse(cram_test).expect("must parse");
    assert_eq!(1, testcases.len());
    assert_eq!(
        TestCase {
            shell_expression: "echo hello".to_string(),
            expectations: vec![exp4("equal", "hello", false, false)],
            title: "This is a title\nThis is still part of it\nAnd another part of the title"
                .to_string(),
            exit_code: None,
            line_number: 9,
            ..Default::default()
        },
        testcases[0]
    );
}

#[test]
fn test_title_from_header() {
    let cram_test = r#"
Something

### This is a title

```scrut
$ echo hello
hello
```
"#;
    let (_, testcases) = parse(cram_test).expect("must parse");
    assert_eq!(1, testcases.len());
    assert_eq!(
        TestCase {
            shell_expression: "echo hello".to_string(),
            expectations: vec![exp4("equal", "hello", false, false)],
            title: "This is a title".to_string(),
            exit_code: None,
            line_number: 7,
            ..Default::default()
        },
        testcases[0]
    );
}

#[test]
fn test_comment_before_command_is_ignored() {
    let cram_test = r#"
# This is a title

```scrut
# ignore
# me
$ echo hello
hello
```
"#;
    let (_, testcases) = parse(cram_test).expect("must parse");
    assert_eq!(1, testcases.len());
    assert_eq!(
        TestCase {
            shell_expression: "echo hello".to_string(),
            expectations: vec![exp4("equal", "hello", false, false)],
            title: "This is a title".to_string(),
            exit_code: None,
            line_number: 7,
            ..Default::default()
        },
        testcases[0]
    );
}

#[test]
fn test_code_only_from_specified_languages() {
    let cram_test = r#"
This is a title1

```text
$ echo hello1
hello1
```

This is a title

```scrut
$ echo hello
hello
```
This is a title3

```bla
$ echo hello3
hello3
```


This is another title

```testcase
$ echo world
world
```
"#;
    let (_, testcases) = parse(cram_test).expect("must parse");
    assert_eq!(2, testcases.len());
    assert_eq!(
        TestCase {
            shell_expression: "echo hello".to_string(),
            expectations: vec![exp4("equal", "hello", false, false)],
            title: "This is a title".to_string(),
            exit_code: None,
            line_number: 12,
            ..Default::default()
        },
        testcases[0]
    );
    assert_eq!(
        TestCase {
            shell_expression: "echo world".to_string(),
            expectations: vec![exp4("equal", "world", false, false)],
            title: "This is another title".to_string(),
            exit_code: None,
            line_number: 26,
            ..Default::default()
        },
        testcases[1]
    );
}

#[test]
fn test_commands_only_composed_of_initial_elements() {
    let cram_test = r#"
Something

### This is a title

```scrut
$ i am command 1
> i am command 2
i am output 1
> i am output 2
i am output 3
```
"#;
    let (_, testcases) = parse(cram_test).expect("must parse");
    assert_eq!(1, testcases.len());
    assert_eq!(
        TestCase {
            shell_expression: "i am command 1\ni am command 2".into(),
            expectations: vec![
                exp4("equal", "i am output 1", false, false),
                exp4("equal", "> i am output 2", false, false),
                exp4("equal", "i am output 3", false, false),
            ],
            title: "This is a title".to_string(),
            exit_code: None,
            line_number: 7,
            ..Default::default()
        },
        testcases[0]
    );
}

#[test]
fn test_markdown_with_extended_code_block() {
    let cram_test = r#"
This is a title

````scrut
$ echo hello
```scrut
inner
```
text
````

And another title

````scrut
$ cat test.md
# Command executes successfully

```scrut
$ echo Hello World
Hello World
```
````
"#;
    let (_, testcases) = parse(cram_test).expect("must parse");
    assert_eq!(2, testcases.len());
    assert_eq!(
        vec![
            TestCase {
                shell_expression: "echo hello".to_string(),
                expectations: vec![
                    exp("equal", "```scrut"),
                    exp("equal", "inner"),
                    exp("equal", "```"),
                    exp("equal", "text"),
                ],
                title: "This is a title".to_string(),
                exit_code: None,
                line_number: 5,
                ..Default::default()
            },
            TestCase {
                shell_expression: "cat test.md".to_string(),
                expectations: vec![
                    exp("equal", "# Command executes successfully"),
                    exp("equal", ""),
                    exp("equal", "```scrut"),
                    exp("equal", "$ echo Hello World"),
                    exp("equal", "Hello World"),
                    exp("equal", "```"),
                ],
                title: "And another title".to_string(),
                exit_code: None,
                line_number: 15,
                ..Default::default()
            },
        ],
        testcases
    );
}

#[test]
fn test_output_of_dollar_lines() {
    let cram_test = r"
This is a title

```scrut
$ echo -e '$ hello\nworld'
$ hello
world
```
";
    let (_, testcases) = parse(cram_test).expect("must parse");
    assert_eq!(1, testcases.len());
    assert_eq!(
        vec![TestCase {
            shell_expression: "echo -e '$ hello\\nworld'".to_string(),
            expectations: vec![
                exp("equal", "$ hello"),
                exp("equal", "world"),
            ],
            title: "This is a title".to_string(),
            exit_code: None,
            line_number: 5,
            ..Default::default()
        },],
        testcases
    );
}

#[test]
fn code_block_starts() {
    assert_eq!(
        Some(("```".to_string(), "scrut".to_string(), "".to_string())),
        extract_code_block_start("```scrut")
    );
    assert_eq!(
        Some(("````".to_string(), "scrut".to_string(), "{a: b}".to_string())),
        extract_code_block_start("````scrut {a: b}")
    );
    assert_eq!(None, extract_code_block_start("```"));
    assert_eq!(None, extract_code_block_start("``scrut"));
    assert_eq!(None, extract_code_block_start("`a"));
    assert_eq!(None, extract_code_block_start("text"));
}

#[test]
fn titles_from_paragraphs_and_headers() {
    assert_eq!(Some(("".to_string(), "Title".to_string())), extract_title("  Title  "));
    assert_eq!(Some(("## ".to_string(), "Header".to_string())), extract_title("## Header"));
    assert_eq!(None, extract_title("$ echo"));
    assert_eq!(None, extract_title("##"));
    assert_eq!(Some(("".to_string(), "Über".to_string())), extract_title("Über"));
}

#[test]
fn unclosed_test_block_ends_the_tokens() {
    let mut it = MarkdownIterator::new(&["scrut"], "a\n```scrut\n$ echo\n");
    let tokens = it.collect_tokens();
    assert_eq!(vec![MarkdownToken::Line(0, "a".to_string())], tokens);
}

#[test]
fn other_code_blocks_are_verbatim() {
    let mut it = MarkdownIterator::new(&["scrut"], "```text\n```scrut\n```\nafter");
    let tokens = it.collect_tokens();
    assert_eq!(
        vec![
            MarkdownToken::VerbatimCodeBlock {
                starting_line_number: 0,
                language: "text".to_string(),
                lines: vec!["```text".to_string(), "```scrut".to_string()],
            },
            MarkdownToken::Line(2, "```".to_string()),
            MarkdownToken::Line(3, "after".to_string()),
        ],
        tokens
    );
}

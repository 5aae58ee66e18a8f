use scrut::config::{OutputStreamControl, TestCaseConfig};
use scrut::executors::bash_script_executor::{
    assemble_outputs, compile_script, compile_testcase, iterate_divided_output, merge_configs,
    prepare_script, DivideError,
};
use scrut::executors::divider::{generate_divider, parse_divider_bytes, DividerSearch};
use scrut::executors::error::{ExecutionError, ExecutionTimeout};
use scrut::executors::execution::Execution;
use scrut::output::{ExitStatus, Output};
use scrut::testcase::TestCase;

const DIVIDER_PREFIX: &str = "~~~~~~~~EXECDIVIDER::";

fn divider_tests() -> Vec<(String, DividerSearch)> {
    vec![
        ("foo".to_string(), DividerSearch::NotFound),
        (
            format!("{}abcd::5::12", DIVIDER_PREFIX),
            DividerSearch::Found { prefix: None, output_index: 5, exit_code: 12 },
        ),
        (
            format!("{}abcd::981::128\n", DIVIDER_PREFIX),
            DividerSearch::Found { prefix: None, output_index: 981, exit_code: 128 },
        ),
        (
            format!("something{}abcd::123::234\n", DIVIDER_PREFIX),
            DividerSearch::Found {
                prefix: Some(b"something".to_vec()),
                output_index: 123,
                exit_code: 234,
            },
        ),
    ]
}

#[test]
fn bash_script_executor_test_parse_divider_bytes() {
    for (divider, expect) in divider_tests() {
        let result = parse_divider_bytes(divider.as_bytes()).expect("parse line");
        assert_eq!(expect, result, "from `{}`", divider)
    }
}

#[test]
fn sequential_executor_test_parse_divider_bytes() {
    for (divider, expect) in divider_tests() {
        let result = parse_divider_bytes(divider.as_bytes()).expect("parse line");
        assert_eq!(expect, result, "from `{}`", divider)
    }
}

#[test]
fn malformed_dividers_are_errors() {
    let missing_salt = format!("{}abcd", DIVIDER_PREFIX);
    assert_eq!(Err("salt is missing from divider line".to_string()), parse_divider_bytes(missing_salt.as_bytes()));
    let missing_index = format!("{}abcd::5", DIVIDER_PREFIX);
    assert_eq!(
        Err("output index is missing from divider line".to_string()),
        parse_divider_bytes(missing_index.as_bytes())
    );
    let bad_index = format!("{}abcd::x::1", DIVIDER_PREFIX);
    assert_eq!(Err("parse divider output index x".to_string()), parse_divider_bytes(bad_index.as_bytes()));
    let bad_code = format!("{}abcd::1::$?", DIVIDER_PREFIX);
    assert_eq!(Err("parse divider exit code $?".to_string()), parse_divider_bytes(bad_code.as_bytes()));
    let negative = format!("{}abcd::+1::-7", DIVIDER_PREFIX);
    assert_eq!(
        Ok(DividerSearch::Found { prefix: None, output_index: 1, exit_code: -7 }),
        parse_divider_bytes(negative.as_bytes())
    );
}

#[test]
fn generated_divider_reads_back() {
    let divider = generate_divider("salt", 3);
    assert_eq!(format!("{}salt::3::$?", DIVIDER_PREFIX), divider);
    let printed = divider.replace("$?", "0");
    assert_eq!(
        Ok(DividerSearch::Found { prefix: None, output_index: 3, exit_code: 0 }),
        parse_divider_bytes(printed.as_bytes())
    );
}

fn divided(parts: &[(&str, i32)]) -> Vec<u8> {
    let mut out = String::new();
    for (index, (text, code)) in parts.iter().enumerate() {
        out.push_str(text);
        out.push_str(&format!("{}salt::{}::{}\n", DIVIDER_PREFIX, index, code));
    }
    out.into_bytes()
}

#[test]
fn output_is_divided_among_executions() {
    let out = divided(&[("a\nb\n", 0), ("c", 3)]);
    assert_eq!(
        Ok(vec![(0, b"a\nb\n".to_vec(), 0), (1, b"c".to_vec(), 3)]),
        iterate_divided_output("STDOUT", &out, None)
    );
    assert_eq!(Err(DivideError::Exceeded { index: 1 }), iterate_divided_output("STDERR", &out, Some(1)));
}

#[test]
fn dividers_out_of_order_are_errors() {
    let out = format!("{}salt::1::0\n", DIVIDER_PREFIX);
    assert_eq!(
        Err(DivideError::Failed {
            index: 1,
            error: "unexpected result in STDOUT (expected index 0, found 1)".to_string()
        }),
        iterate_divided_output("STDOUT", out.as_bytes(), None)
    );
}

#[test]
fn script_output_is_assembled() {
    let script = Output::new(&divided(&[("a\n", 0), ("b\n", 2)]), &divided(&[("e1\n", 0), ("", 2)]), Some(0));
    let outputs = assemble_outputs(&script, 2, 80, false).expect("assembled");
    assert_eq!(
        vec![Output::new(b"a\n", b"e1\n", Some(0)), Output::new(b"b\n", b"", Some(2))],
        outputs
    );
    let combined = assemble_outputs(&script, 2, 80, true).expect("assembled");
    assert_eq!(vec![Output::new(b"a\n", b"", Some(0)), Output::new(b"b\n", b"", Some(2))], combined);
}

#[test]
fn script_outcomes_that_end_all_executions() {
    let skipped = Output::new(b"", b"", Some(80));
    assert_eq!(Err(ExecutionError::Skipped(0)), assemble_outputs(&skipped, 1, 80, true));
    let skipped_second = Output::new(&divided(&[("a\n", 0), ("b\n", 80)]), b"", Some(0));
    assert_eq!(Err(ExecutionError::Skipped(1)), assemble_outputs(&skipped_second, 2, 80, true));
    let timed_out = Output::timed_out(10);
    assert_eq!(
        Err(ExecutionError::Timeout(ExecutionTimeout::Total, vec![])),
        assemble_outputs(&timed_out, 1, 80, true)
    );
    let too_few = Output::new(&divided(&[("a\n", 0)]), b"", Some(0));
    match assemble_outputs(&too_few, 2, 80, true) {
        Err(ExecutionError::AbortedExecutions { error, .. }) => {
            assert_eq!("expected 2 execution result(s) but found 1", error)
        }
        other => panic!("unexpected {other:?}"),
    }
}

#[test]
fn script_compiles_expressions_with_dividers() {
    let testcases = vec![TestCase::from_expression("echo a"), TestCase::from_expression("echo b")];
    let script = compile_script(&testcases, false, "SALT").expect("script");
    assert_eq!(
        format!(
            "echo a\n\necho \"{p}SALT::0::$?\"\n1>&2 echo \"{p}SALT::0::$?\"\necho b\n\necho \"{p}SALT::1::$?\"\n1>&2 echo \"{p}SALT::1::$?\"",
            p = DIVIDER_PREFIX
        ),
        script
    );
}

#[test]
fn script_exports_and_unsets_environment() {
    let mut testcase = TestCase::from_expression("echo $FOO");
    testcase.config.environment = vec![("FOO".to_string(), "a b".to_string())];
    let script = compile_script(&[testcase], true, "S").expect("script");
    assert_eq!(
        format!("export FOO='a b'\necho $FOO\n\necho \"{}S::0::$?\"\nunset FOO", DIVIDER_PREFIX),
        script
    );
    let mut bad = TestCase::from_expression("true");
    bad.config.environment = vec![("A B".to_string(), "x".to_string())];
    assert_eq!(
        Err(ExecutionError::FailedExecution {
            index: 0,
            error: "Environment variable 'A B' contains invalid characters".to_string()
        }),
        compile_script(&[bad], true, "S")
    );
}

#[test]
fn script_does_not_support_timeout_per_testcase() {
    let mut testcase = TestCase::from_expression("true");
    testcase.config.timeout = Some(100);
    assert_eq!(
        Err(ExecutionError::FailedExecution {
            index: 1,
            error: "timeout per execution not supported in bash-script execution".to_string()
        }),
        compile_script(&[TestCase::from_expression("true"), testcase], true, "S").map(|_| ())
    );
}

#[test]
fn configurations_must_not_diverge() {
    let mut a = TestCase::from_expression("a");
    a.config.keep_crlf = Some(true);
    let mut b = TestCase::from_expression("b");
    b.config.keep_crlf = Some(false);
    assert_eq!(
        Err(ExecutionError::FailedExecution {
            index: 1,
            error: "inconsistent configuration value for keep_crlf".to_string()
        }),
        merge_configs(&[a.clone(), b])
    );
    let merged = merge_configs(&[TestCase::from_expression("x"), a]).expect("merged");
    assert_eq!(Some(true), merged.keep_crlf);
}

#[test]
fn compiled_testcase_carries_the_total_timeout() {
    let mut a = TestCase::from_expression("a");
    a.config.output_stream = Some(OutputStreamControl::Combined);
    let testcase = compile_testcase(&[a.clone()], None, "S").expect("compiled");
    assert_eq!("Test Script", testcase.title);
    assert_eq!(Some(900000), testcase.config.timeout);
    assert!(!testcase.shell_expression.contains("1>&2"));
    let untimed = compile_testcase(&[a.clone()], Some(0), "S").expect("compiled");
    assert_eq!(None, untimed.config.timeout);
    let random = prepare_script(&[a], Some(5)).expect("prepared");
    assert_eq!(Some(5), random.config.timeout);
    assert_eq!(TestCaseConfig { timeout: Some(5), output_stream: Some(OutputStreamControl::Combined), ..Default::default() }, random.config);
}

#[test]
fn execution_builder() {
    let e = Execution::new("a").expression("b").environment(&[("K", "V")]).timeout(Some(3));
    assert_eq!("b", e.expression);
    assert_eq!(Some(vec![("K".to_string(), "V".to_string())]), e.environment);
    assert_eq!(Some(3), e.timeout);
}

#[test]
fn execution_error_messages() {
    assert_eq!("skipped test 2", ExecutionError::Skipped(1).to_string());
    assert_eq!(
        "timeout in executing shell expression of test 1",
        ExecutionError::Timeout(ExecutionTimeout::Index(0), vec![]).to_string()
    );
    assert_eq!("aborted executions: x", ExecutionError::aborted("x".to_string(), None).to_string());
    assert_eq!(
        "error in execution with index=3: y",
        ExecutionError::failed(3, "y".to_string()).to_string()
    );
    assert_eq!(ExitStatus::Code(0), ExitStatus::success());
}

#[test]
fn execution_environment_keeps_the_last_value_of_a_name() {
    let e = Execution::new("a").environment(&[("A", "1"), ("B", "2"), ("A", "3")]);
    assert_eq!(
        Some(vec![("A".to_string(), "3".to_string()), ("B".to_string(), "2".to_string())]),
        e.environment
    );
}

#[test]
fn merged_environments_compare_as_maps() {
    let mut a = TestCase::from_expression("echo a");
    a.config.environment = vec![("A".to_string(), "1".to_string()), ("B".to_string(), "2".to_string())];
    let mut b = a.clone();
    b.config.environment = vec![("B".to_string(), "2".to_string()), ("A".to_string(), "1".to_string())];
    assert!(merge_configs(&[a.clone(), b]).is_ok());
    let mut c = a.clone();
    c.config.environment = vec![("A".to_string(), "1".to_string()), ("B".to_string(), "3".to_string())];
    assert_eq!(
        Err(ExecutionError::FailedExecution {
            index: 1,
            error: "inconsistent value for environment".to_string()
        }),
        merge_configs(&[a, c])
    );
}

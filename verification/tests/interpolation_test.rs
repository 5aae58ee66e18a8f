use scrut::expectation::{Expectation, ExpectationMaker};
use scrut::interpolation::{interpolate_expectation, interpolate_str};
use scrut::rules::RuleError;

fn make_env(pairs: &[(&str, &str)]) -> Vec<(String, String)> {
    pairs.iter().map(|(k, v)| (k.to_string(), v.to_string())).collect()
}

fn exp(kind: &str, expression: &str) -> Expectation {
    ExpectationMaker::new()
        .make(kind, expression, false, false, &format!("{} ({})", expression, kind))
        .expect("create test expectation")
}

#[test]
fn test_basic_substitution() {
    let env = make_env(&[("FOO", "bar")]);
    assert_eq!(interpolate_str("Hello $FOO", &env), "Hello bar");
}

#[test]
fn test_braced_syntax() {
    let env = make_env(&[("FOO", "bar")]);
    assert_eq!(interpolate_str("Hello ${FOO}", &env), "Hello bar");
}

#[test]
fn test_missing_variable_stays() {
    let env = Vec::new();
    assert_eq!(interpolate_str("Hello $MISSING", &env), "Hello $MISSING");
}

#[test]
fn test_missing_braced_variable_stays() {
    let env = Vec::new();
    assert_eq!(interpolate_str("Hello ${MISSING}", &env), "Hello ${MISSING}");
}

#[test]
fn test_escaped_dollar() {
    let env = Vec::new();
    assert_eq!(interpolate_str("Cost is $$5", &env), "Cost is $5");
    assert_eq!(interpolate_str("This is $$AAA and $$BB", &env), "This is $AAA and $BB");
}

#[test]
fn test_adjacent_variables() {
    let env = make_env(&[("A", "x"), ("B", "y")]);
    assert_eq!(interpolate_str("$A$B", &env), "xy");
}

#[test]
fn test_variable_at_end() {
    let env = make_env(&[("VAR", "value")]);
    assert_eq!(interpolate_str("prefix $VAR", &env), "prefix value");
}

#[test]
fn test_dollar_at_end() {
    let env = Vec::new();
    assert_eq!(interpolate_str("end$", &env), "end$");
}

#[test]
fn test_non_identifier_after_dollar() {
    let env = Vec::new();
    assert_eq!(interpolate_str("$123", &env), "$123");
}

#[test]
fn test_empty_braced_name() {
    let env = Vec::new();
    assert_eq!(interpolate_str("${}", &env), "${}");
}

#[test]
fn test_no_variables() {
    let env = make_env(&[("FOO", "bar")]);
    assert_eq!(interpolate_str("no vars here", &env), "no vars here");
}

#[test]
fn test_interpolate_expectation_equal() {
    let env = make_env(&[("FOO", "bar")]);
    let e = exp("equal", "Hello $FOO");
    let result = interpolate_expectation(&e, &env).expect("interpolate");
    assert!(result.matches(b"Hello bar\n"));
}

#[test]
fn test_interpolate_expectation_glob() {
    let env = make_env(&[("PREFIX", "Hello")]);
    let e = exp("glob", "$PREFIX*");
    let result = interpolate_expectation(&e, &env).expect("interpolate");
    assert!(result.matches(b"Hello World\n"));
}

#[test]
fn test_interpolate_expectation_regex() {
    let env = make_env(&[("WORD", "Hello")]);
    let e = exp("regex", "$WORD.*");
    let result = interpolate_expectation(&e, &env).expect("interpolate");
    assert!(result.matches(b"Hello World\n"));
}

#[test]
fn test_interpolate_expectation_noop_no_vars() {
    let env = make_env(&[("FOO", "bar")]);
    let e = exp("equal", "no vars here");
    let result = interpolate_expectation(&e, &env).expect("interpolate");
    assert_eq!(result, e);
}

#[test]
fn test_interpolate_expectation_noop_empty_env() {
    let env = Vec::new();
    let e = exp("equal", "Hello $FOO");
    let result = interpolate_expectation(&e, &env).expect("interpolate");
    assert_eq!(result, e);
}

#[test]
fn braced_and_plain_names_take_underscores() {
    let env = make_env(&[("A_B", "x"), ("_C", "y")]);
    assert_eq!(interpolate_str("${A_B}", &env), "x");
    assert_eq!(interpolate_str("$A_B", &env), "x");
    assert_eq!(interpolate_str("a ${_C} b", &env), "a y b");
}

#[test]
fn names_do_not_begin_with_a_digit() {
    let env = make_env(&[("1X", "y")]);
    assert_eq!(interpolate_str("$1X", &env), "$1X");
    assert_eq!(interpolate_str("${1X}", &env), "${1X}");
}

#[test]
fn replaced_values_are_not_read_again() {
    let env = make_env(&[("A", "$B"), ("B", "no")]);
    assert_eq!(interpolate_str("$A", &env), "$B");
}

#[test]
fn last_variable_of_a_name_wins() {
    let env = make_env(&[("A", "1"), ("A", "2")]);
    assert_eq!(interpolate_str("$A", &env), "2");
}

#[test]
fn interpolated_regex_must_compile() {
    let env = make_env(&[("X", "(")]);
    let e = exp("regex", "a$X");
    assert_eq!(Err(RuleError::InvalidRegex("a(".to_string())), interpolate_expectation(&e, &env));
}

#[test]
fn interpolation_keeps_the_original_text() {
    let env = make_env(&[("FOO", "bar")]);
    let e = exp("equal", "Hello $FOO");
    let result = interpolate_expectation(&e, &env).expect("interpolate");
    assert_eq!("Hello $FOO (equal)", result.original_string());
    assert_eq!("Hello bar", result.rule.expression);
}

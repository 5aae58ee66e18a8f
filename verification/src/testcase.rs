//! Test cases: a shell expression with expectations about its output and
//! exit code, and the validation of an execution's output against them.
use vstd::prelude::*;

use crate::config::{spec_empty_config, OutputStreamControl, TestCaseConfig, TestCaseConfigView};
use crate::diff::{diff_lines_view, spec_diff, spec_has_differences, Diff, DiffTool};
use crate::expectation::{clone_expectations, Expectation, ExpectationView};
use crate::newline::{replace_crlf, spec_replace_crlf, spec_split_lines};
use crate::output::Output;

verus! {

/// A shell expression, the expectations about the output it prints and the
/// exit code it ends with.
#[derive(Debug, Clone, PartialEq)]
pub struct TestCase {
    /// A human readable title
    pub title: String,
    /// The shell expression that is executed
    pub shell_expression: String,
    /// The expectations about the output, in order
    pub expectations: Vec<Expectation>,
    /// The expected exit code; none means zero
    pub exit_code: Option<i32>,
    /// The line of the document on which the test case starts (counted from one)
    pub line_number: usize,
    /// Per test case configuration
    pub config: TestCaseConfig,
}

/// The abstract value of a [`TestCase`].
pub struct TestCaseView {
    pub title: Seq<char>,
    pub shell_expression: Seq<char>,
    pub expectations: Seq<ExpectationView>,
    pub exit_code: Option<i32>,
    pub line_number: int,
    pub config: TestCaseConfigView,
}

/// The abstract values of a list of expectations.
pub open spec fn expectations_view(v: Seq<Expectation>) -> Seq<ExpectationView> {
    v.map_values(|e: Expectation| e@)
}

impl View for TestCase {
    type V = TestCaseView;

    open spec fn view(&self) -> TestCaseView {
        TestCaseView {
            title: self.title@,
            shell_expression: self.shell_expression@,
            expectations: expectations_view(self.expectations@),
            exit_code: self.exit_code,
            line_number: self.line_number as int,
            config: self.config@,
        }
    }
}

/// Why the output of an execution does not satisfy a test case.
#[derive(Debug, Clone, PartialEq)]
pub enum TestCaseError {
    /// The output does not match the expectations
    MalformedOutput(Diff),
    /// The exit code is not the expected one
    InvalidExitCode { actual: i32, expected: i32 },
    /// The output could not be evaluated
    InternalError(String),
    /// The execution timed out
    Timeout,
    /// The test case was skipped
    Skipped,
}

/// The exit code a test case expects: the given one, zero if none is given.
pub open spec fn spec_expected_exit_code(exit_code: Option<i32>) -> i32 {
    match exit_code {
        Some(c) => c,
        None => 0i32,
    }
}

/// The output that the expectations of a test case apply to: STDERR where
/// its configuration chooses that stream, else STDOUT (into which STDERR was
/// combined where the configuration combines them); CRLF is translated to
/// LF unless the configuration keeps it.
pub open spec fn spec_checked_output(config: TestCaseConfigView, stdout: Seq<u8>, stderr: Seq<u8>) -> Seq<u8> {
    let chosen = if config.output_stream == Some(OutputStreamControl::Stderr) {
        stderr
    } else {
        stdout
    };
    if config.keep_crlf == Some(true) {
        chosen
    } else {
        spec_replace_crlf(chosen)
    }
}

/// Whether `r` is the result of validating an output with these STDOUT and
/// STDERR bytes and this exit status against the test case: the exit code
/// must be the expected one (zero unless given), then the comparison of the
/// checked output (see [`spec_checked_output`]) with the expectations must
/// show no differences.
pub open spec fn spec_validation(
    tc: TestCase,
    stdout: Seq<u8>,
    stderr: Seq<u8>,
    status: crate::output::ExitStatus,
    r: Result<(), TestCaseError>,
) -> bool {
    let expected = spec_expected_exit_code(tc.exit_code);
    let actual = status.spec_as_code();
    let d = spec_diff(tc.expectations@, spec_split_lines(spec_checked_output(tc.config@, stdout, stderr)));
    if actual != expected {
        r == Err::<(), TestCaseError>(TestCaseError::InvalidExitCode { actual, expected })
    } else if spec_has_differences(d) {
        r matches Err(TestCaseError::MalformedOutput(diff)) && diff_lines_view(diff.lines@) == d
    } else {
        r is Ok
    }
}

impl TestCase {
    /// A copy of the test case.
    pub fn copy(&self) -> (r: TestCase)
        ensures
            r@ == self@,
            r.expectations@ == self.expectations@,
            r.exit_code == self.exit_code,
    {
        TestCase {
            title: self.title.clone(),
            shell_expression: self.shell_expression.clone(),
            expectations: clone_expectations(&self.expectations),
            exit_code: self.exit_code,
            line_number: self.line_number,
            config: self.config.copy(),
        }
    }

    /// A test case of the shell expression alone: no title, no expectations
    /// (so zero exit code and no output), line zero and no configuration.
    pub fn from_expression(expression: &str) -> (r: TestCase)
        ensures
            r@.title.len() == 0,
            r@.shell_expression == expression@,
            r@.expectations.len() == 0,
            r.exit_code is None,
            r.line_number == 0,
            r@.config == spec_empty_config(),
    {
        let r = TestCase {
            title: String::new(),
            shell_expression: expression.to_owned(),
            expectations: Vec::new(),
            exit_code: None,
            line_number: 0,
            config: TestCaseConfig::empty(),
        };
        assert(expectations_view(r.expectations@) =~= Seq::empty());
        r
    }

    /// Validates the output of an execution of this test case: first the exit
    /// code against the expected one (zero if none is given), then the output
    /// stream that the configuration chooses (with CRLF translated to LF
    /// unless it is kept) against the expectations.
    pub fn validate(&self, output: &Output) -> (r: Result<(), TestCaseError>)
        ensures
            spec_validation(*self, output.stdout.0@, output.stderr.0@, output.exit_code, r),
    {
        let expected = match self.exit_code {
            Some(c) => c,
            None => 0,
        };
        let actual = output.exit_code.as_code();
        if actual != expected {
            return Err(TestCaseError::InvalidExitCode { actual, expected });
        }
        let chosen = match self.config.output_stream {
            Some(OutputStreamControl::Stderr) => output.stderr.0.as_slice(),
            _ => output.stdout.0.as_slice(),
        };
        let tool = DiffTool::new(clone_expectations(&self.expectations));
        let diff = match self.config.keep_crlf {
            Some(true) => tool.diff(chosen),
            _ => {
                let translated = replace_crlf(chosen);
                tool.diff(translated.as_slice())
            },
        };
        if diff.has_differences() {
            Err(TestCaseError::MalformedOutput(diff))
        } else {
            Ok(())
        }
    }
}

impl Default for TestCase {
    fn default() -> (r: TestCase)
        ensures
            r@.title.len() == 0,
            r@.shell_expression.len() == 0,
            r@.expectations.len() == 0,
            r.exit_code is None,
            r.line_number == 0,
            r@.config == spec_empty_config(),
    {
        proof {
            reveal_strlit("");
        }
        TestCase::from_expression("")
    }
}

} // verus!

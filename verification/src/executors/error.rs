//! Why executions did not produce outputs for all test cases.
use vstd::prelude::*;

use crate::escaping::Escaper;
use crate::output::{Output, OutputView};
use crate::text::{decimal_string, spec_decimal};

verus! {

/// Which timeout ended the executions.
#[derive(Debug, Clone, Copy, PartialEq, Eq, Structural)]
pub enum ExecutionTimeout {
    /// The timeout of the test case with this index
    Index(usize),
    /// The timeout over all test cases
    Total,
}

/// Why executions did not produce outputs for all test cases.
#[derive(Debug, Clone, PartialEq)]
pub enum ExecutionError {
    /// The execution with this index failed
    FailedExecution { index: usize, error: String },
    /// The executions were aborted, maybe with an output that shows why
    AbortedExecutions { error: String, output: Option<Output> },
    /// A timeout ended the executions; the outputs up to then
    Timeout(ExecutionTimeout, Vec<Output>),
    /// The test case with this index asked to skip the document
    Skipped(usize),
}

/// The abstract value of an [`ExecutionError`].
pub enum ExecutionErrorView {
    Failed(int, Seq<char>),
    Aborted(Seq<char>, Option<OutputView>),
    Timeout(ExecutionTimeout, Seq<OutputView>),
    Skipped(int),
}

/// The abstract values of a list of outputs.
pub open spec fn outputs_view(v: Seq<Output>) -> Seq<OutputView> {
    v.map_values(|o: Output| o@)
}

impl View for ExecutionError {
    type V = ExecutionErrorView;

    open spec fn view(&self) -> ExecutionErrorView {
        match self {
            ExecutionError::FailedExecution { index, error } => ExecutionErrorView::Failed(
                *index as int,
                error@,
            ),
            ExecutionError::AbortedExecutions { error, output } => ExecutionErrorView::Aborted(
                error@,
                match output {
                    Some(o) => Some(o@),
                    None => None,
                },
            ),
            ExecutionError::Timeout(t, outputs) => ExecutionErrorView::Timeout(
                *t,
                outputs_view(outputs@),
            ),
            ExecutionError::Skipped(i) => ExecutionErrorView::Skipped(*i as int),
        }
    }
}

/// The message of an error.
pub open spec fn spec_execution_error_message(e: ExecutionError) -> Seq<char> {
    match e {
        ExecutionError::FailedExecution { index, error } => "error in execution with index="@
            + spec_decimal(index as nat) + ": "@ + error@,
        ExecutionError::AbortedExecutions { error, output } => match output {
            Some(o) => "aborted executions with exit code="@ + o.exit_code.spec_to_string() + ": "@
                + error@ + "\n"@ + o.spec_error_string(Escaper::Unicode) + "\n"@,
            None => "aborted executions: "@ + error@,
        },
        ExecutionError::Timeout(t, _) => match t {
            ExecutionTimeout::Index(i) => "timeout in executing shell expression of test "@
                + spec_decimal((i + 1) as nat),
            ExecutionTimeout::Total => "timeout in executing"@,
        },
        ExecutionError::Skipped(i) => "skipped test "@ + spec_decimal((i + 1) as nat),
    }
}

impl ExecutionError {
    /// Executions that were aborted, maybe with an output that shows why.
    pub fn aborted(error: String, output: Option<Output>) -> (r: Self)
        ensures
            r == (ExecutionError::AbortedExecutions { error, output }),
    {
        ExecutionError::AbortedExecutions { error, output }
    }

    /// The execution with the given index failed.
    pub fn failed(index: usize, error: String) -> (r: Self)
        ensures
            r == (ExecutionError::FailedExecution { index, error }),
    {
        ExecutionError::FailedExecution { index, error }
    }

    /// An execution failed: the one with the given index, or, without
    /// index, all were aborted.
    pub fn from_execute(error: String, index: Option<usize>, output: Option<Output>) -> (r: Self)
        ensures
            r == match index {
                Some(i) => ExecutionError::FailedExecution { index: i, error },
                None => ExecutionError::AbortedExecutions { error, output },
            },
    {
        match index {
            Some(index) => ExecutionError::FailedExecution { index, error },
            None => ExecutionError::AbortedExecutions { error, output },
        }
    }

    /// Whether the indices that the message counts from one fit a `u64`.
    pub open spec fn spec_message_fits(&self) -> bool {
        match self {
            ExecutionError::Timeout(ExecutionTimeout::Index(i), _) => i < u64::MAX,
            ExecutionError::Skipped(i) => i < u64::MAX,
            _ => true,
        }
    }

    /// The human readable message.
    pub fn to_string(&self) -> (r: String)
        requires
            self.spec_message_fits(),
        ensures
            r@ == spec_execution_error_message(*self),
    {
        match self {
            ExecutionError::FailedExecution { index, error } => {
                let mut s = "error in execution with index=".to_owned();
                s.append(decimal_string(*index as u64).as_str());
                s.append(": ");
                s.append(error.as_str());
                s
            },
            ExecutionError::AbortedExecutions { error, output } => match output {
                Some(o) => {
                    let mut s = "aborted executions with exit code=".to_owned();
                    s.append(o.exit_code.to_display_string().as_str());
                    s.append(": ");
                    s.append(error.as_str());
                    s.append("\n");
                    s.append(o.to_error_string(&Escaper::Unicode).as_str());
                    s.append("\n");
                    s
                },
                None => {
                    let mut s = "aborted executions: ".to_owned();
                    s.append(error.as_str());
                    s
                },
            },
            ExecutionError::Timeout(t, _) => match t {
                ExecutionTimeout::Index(i) => {
                    let mut s = "timeout in executing shell expression of test ".to_owned();
                    s.append(decimal_string(*i as u64 + 1).as_str());
                    s
                },
                ExecutionTimeout::Total => "timeout in executing".to_owned(),
            },
            ExecutionError::Skipped(i) => {
                let mut s = "skipped test ".to_owned();
                s.append(decimal_string(*i as u64 + 1).as_str());
                s
            },
        }
    }
}

} // verus!

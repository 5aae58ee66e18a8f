//! Executions one after the other, each in a new shell, that share state
//! through a directory. Running each shell is left to the application; the
//! library decides which timeout applies to an execution and what its
//! output means for the executions that follow.
use vstd::prelude::*;

use crate::executors::error::{outputs_view, ExecutionError, ExecutionErrorView, ExecutionTimeout};
use crate::output::{ExitStatus, Output, OutputStream, OutputView};

verus! {

/// The timeout of an execution and whether it is the one over all
/// executions: the execution's own timeout if it has one, else what is
/// left of the timeout over all executions, if there is one.
pub open spec fn spec_select_timeout(local: Option<u64>, global_left: Option<u64>) -> Option<
    (bool, u64),
> {
    match local {
        Some(l) => Some((false, l)),
        None => match global_left {
            Some(g) => Some((true, g)),
            None => None,
        },
    }
}

/// Chooses the timeout of an execution.
pub fn select_timeout(local: Option<u64>, global_left: Option<u64>) -> (r: Option<(bool, u64)>)
    ensures
        r == spec_select_timeout(local, global_left),
{
    match local {
        Some(l) => Some((false, l)),
        None => match global_left {
            Some(g) => Some((true, g)),
            None => None,
        },
    }
}

/// What follows from the output of one execution.
pub enum StatefulStep {
    /// The next execution runs; the outputs so far
    Continue(Vec<Output>),
    /// No further execution runs; the outputs of all executions
    Finished(Vec<Output>),
    /// The executions end with this error
    Stopped(ExecutionError),
}

/// The abstract value of a [`StatefulStep`].
pub enum StatefulStepView {
    Continue(Seq<OutputView>),
    Finished(Seq<OutputView>),
    Stopped(ExecutionErrorView),
}

impl View for StatefulStep {
    type V = StatefulStepView;

    open spec fn view(&self) -> StatefulStepView {
        match self {
            StatefulStep::Continue(v) => StatefulStepView::Continue(outputs_view(v@)),
            StatefulStep::Finished(v) => StatefulStepView::Finished(outputs_view(v@)),
            StatefulStep::Stopped(e) => StatefulStepView::Stopped(e@),
        }
    }
}

/// The output of an execution whose status is unknown.
pub open spec fn unknown_output() -> OutputView {
    OutputView { stdout: Seq::empty(), stderr: Seq::empty(), exit_code: ExitStatus::Unknown }
}

/// What follows from the output of the execution with the given index, of
/// `count`: an exit code that asks to skip ends all with that index; any
/// other code goes on; a timeout ends all, as the timeout over all
/// executions (with the output's status set to that whole timeout) or as the
/// execution's own; an unknown status finishes with unknown outputs for the
/// executions that did not run.
pub open spec fn spec_stateful_step(
    outputs: Seq<OutputView>,
    output: OutputView,
    index: nat,
    count: nat,
    is_global_timeout: bool,
    total_timeout: u64,
    skip_code: i32,
) -> StatefulStepView {
    match output.exit_code {
        ExitStatus::Code(c) => if c == skip_code {
            StatefulStepView::Stopped(ExecutionErrorView::Skipped(index as int))
        } else {
            StatefulStepView::Continue(outputs.push(output))
        },
        ExitStatus::Timeout(_) => if is_global_timeout {
            StatefulStepView::Stopped(
                ExecutionErrorView::Timeout(
                    ExecutionTimeout::Total,
                    outputs.push(
                        OutputView {
                            stdout: output.stdout,
                            stderr: output.stderr,
                            exit_code: ExitStatus::Timeout(total_timeout),
                        },
                    ),
                ),
            )
        } else {
            StatefulStepView::Stopped(
                ExecutionErrorView::Timeout(
                    ExecutionTimeout::Index(index as usize),
                    outputs.push(output),
                ),
            )
        },
        ExitStatus::Unknown => StatefulStepView::Finished(
            outputs.push(output) + Seq::new((count - index - 1) as nat, |i: int| unknown_output()),
        ),
    }
}

/// Decides what follows from the output of the execution with the given
/// index, after the outputs of those before it.
pub fn stateful_step(
    outputs: Vec<Output>,
    output: Output,
    index: usize,
    count: usize,
    is_global_timeout: bool,
    total_timeout: u64,
    skip_code: i32,
) -> (r: StatefulStep)
    requires
        outputs@.len() == index,
        index < count,
    ensures
        r@ == spec_stateful_step(
            outputs_view(outputs@),
            output@,
            index as nat,
            count as nat,
            is_global_timeout,
            total_timeout,
            skip_code,
        ),
{
    let ghost ov = outputs_view(outputs@);
    let mut outputs = outputs;
    match output.exit_code {
        ExitStatus::Code(c) => {
            if c == skip_code {
                return StatefulStep::Stopped(ExecutionError::Skipped(index));
            }
            let ghost o = output;
            outputs.push(output);
            assert(outputs_view(outputs@) =~= ov.push(o@));
            StatefulStep::Continue(outputs)
        },
        ExitStatus::Timeout(_) => {
            if is_global_timeout {
                let o = Output {
                    stdout: output.stdout,
                    stderr: output.stderr,
                    exit_code: ExitStatus::Timeout(total_timeout),
                };
                let ghost ow = o;
                outputs.push(o);
                assert(outputs_view(outputs@) =~= ov.push(ow@));
                StatefulStep::Stopped(ExecutionError::Timeout(ExecutionTimeout::Total, outputs))
            } else {
                let ghost o = output;
                outputs.push(output);
                assert(outputs_view(outputs@) =~= ov.push(o@));
                StatefulStep::Stopped(ExecutionError::Timeout(ExecutionTimeout::Index(index), outputs))
            }
        },
        ExitStatus::Unknown => {
            let ghost o = output;
            outputs.push(output);
            let ghost first = ov.push(o@);
            assert(outputs_view(outputs@) =~= first);
            while outputs.len() < count
                invariant
                    first.len() <= outputs@.len() <= count,
                    first.len() == index + 1,
                    outputs_view(outputs@) =~= first + Seq::new(
                        (outputs@.len() - index - 1) as nat,
                        |i: int| unknown_output(),
                    ),
                decreases count - outputs@.len(),
            {
                let ghost before = outputs_view(outputs@);
                outputs.push(
                    Output {
                        stdout: OutputStream(Vec::new()),
                        stderr: OutputStream(Vec::new()),
                        exit_code: ExitStatus::Unknown,
                    },
                );
                assert(outputs_view(outputs@) =~= before.push(unknown_output()));
            }
            StatefulStep::Finished(outputs)
        },
    }
}

/// Executions one after the other, each in a new shell, that share state
/// through a directory.
pub struct StatefulExecutor {
    /// The path to the shell
    pub shell: String,
}

impl StatefulExecutor {
    /// An executor that runs the given shell.
    pub fn new(shell: &str) -> (r: Self)
        ensures
            r.shell@ == shell@,
    {
        StatefulExecutor { shell: shell.to_owned() }
    }
}

} // verus!

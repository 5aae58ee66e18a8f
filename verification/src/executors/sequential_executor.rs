//! Executions of shell expressions one after the other in one shell, so
//! that environment variables and aliases carry over: one script prints a
//! divider after each expression.
use vstd::prelude::*;

use crate::config::env_view;
use crate::executors::bash_script_executor::{
    execution_lines, is_alphanumeric_ascii, random_string, spec_execution_lines,
    SUFFIX_RANDOM_SIZE,
};
use crate::executors::error::{ExecutionError, ExecutionErrorView};
use crate::executors::execution::Execution;
use crate::text::strings_view;

verus! {

/// The environment variables of an execution, none if it has none.
pub open spec fn execution_env(e: Execution) -> Seq<(Seq<char>, Seq<char>)> {
    match e.environment {
        Some(v) => env_view(v@),
        None => Seq::empty(),
    }
}

/// The script lines of the executions from index `i` on, or the index of the
/// first that cannot be scripted and why.
pub open spec fn spec_sequential_from(
    execs: Seq<Execution>,
    i: int,
    combined: bool,
    salt: Seq<char>,
) -> Result<Seq<Seq<char>>, (int, Seq<char>)>
    decreases execs.len() - i,
{
    if i < 0 || i >= execs.len() {
        Ok(Seq::empty())
    } else if execs[i].timeout is Some {
        Err((i, "timeout per execution not supported in sequential execution"@))
    } else {
        match spec_execution_lines(execs[i].expression@, execution_env(execs[i]), i as nat, combined, salt) {
            Err(m) => Err((i, m)),
            Ok(lines) => match spec_sequential_from(execs, i + 1, combined, salt) {
                Err(e) => Err(e),
                Ok(rest) => Ok(lines + rest),
            },
        }
    }
}

/// The script that runs the executions in one shell, one after the other,
/// each followed by its divider.
pub open spec fn spec_sequential_script(execs: Seq<Execution>, combined: bool, salt: Seq<char>) -> Result<
    Seq<char>,
    (int, Seq<char>),
> {
    match spec_sequential_from(execs, 0, combined, salt) {
        Ok(lines) => Ok(crate::text::spec_join_newline(lines)),
        Err(e) => Err(e),
    }
}

/// Executions that share one shell run one after the other, so that
/// environment variables and aliases carry over.
pub struct SequentialShellExecutor {
    /// The path to the shell
    pub shell: String,
}

impl SequentialShellExecutor {
    /// An executor that runs the given shell.
    pub fn new(shell: &str) -> (r: Self)
        ensures
            r.shell@ == shell@,
    {
        SequentialShellExecutor { shell: shell.to_owned() }
    }

    /// The script of the executions with dividers of the given salt: each
    /// execution's environment is exported before and unset after its
    /// expression. Executions cannot have their own timeout, and their
    /// environment variables must be valid names.
    pub fn script_with_salt(&self, executions: &[Execution], combine_output: bool, salt: &str) -> (r: Result<
        String,
        ExecutionError,
    >)
        ensures
            match r {
                Ok(s) => spec_sequential_script(executions@, combine_output, salt@) == Ok::<
                    Seq<char>,
                    (int, Seq<char>),
                >(s@),
                Err(e) => spec_sequential_script(executions@, combine_output, salt@) matches Err(
                    (i, m),
                ) && e@ == ExecutionErrorView::Failed(i, m),
            },
    {
        let mut lines: Vec<String> = Vec::new();
        let mut index: usize = 0;
        let empty: Vec<(String, String)> = Vec::new();
        assert(env_view(empty@) =~= Seq::empty());
        while index < executions.len()
            invariant
                index <= executions@.len(),
                env_view(empty@) == Seq::<(Seq<char>, Seq<char>)>::empty(),
                spec_sequential_from(executions@, 0, combine_output, salt@) == match spec_sequential_from(
                    executions@,
                    index as int,
                    combine_output,
                    salt@,
                ) {
                    Ok(rest) => Ok(strings_view(lines@) + rest),
                    Err(e) => Err(e),
                },
            decreases executions@.len() - index,
        {
            let ex = &executions[index];
            if ex.timeout.is_some() {
                return Err(
                    ExecutionError::failed(
                        index,
                        "timeout per execution not supported in sequential execution".to_owned(),
                    ),
                );
            }
            let env = match &ex.environment {
                Some(v) => v,
                None => &empty,
            };
            assert(env_view(env@) == execution_env(*ex));
            let piece = match execution_lines(
                ex.expression.as_str(),
                env,
                index,
                combine_output,
                salt,
            ) {
                Ok(v) => v,
                Err(m) => {
                    return Err(ExecutionError::failed(index, m));
                },
            };
            let ghost l0 = strings_view(lines@);
            crate::executors::bash_script_executor::push_lines(&mut lines, &piece);
            proof {
                let pv = strings_view(piece@);
                if let Ok(rest) = spec_sequential_from(executions@, index + 1, combine_output, salt@) {
                    assert(l0 + (pv + rest) =~= strings_view(lines@) + rest);
                }
            }
            index = index + 1;
        }
        assert(strings_view(lines@) + Seq::<Seq<char>>::empty() =~= strings_view(lines@));
        Ok(crate::text::join_newline(&lines))
    }

    /// The script of the executions, with dividers of a random salt of
    /// twenty letters and digits.
    pub fn build_expression(&self, executions: &[Execution], combine_output: bool) -> (r: Result<
        String,
        ExecutionError,
    >)
        ensures
            exists|salt: Seq<char>|
                salt.len() == SUFFIX_RANDOM_SIZE && (forall|i: int|
                    0 <= i < salt.len() ==> is_alphanumeric_ascii(#[trigger] salt[i])) && match r {
                    Ok(s) => spec_sequential_script(executions@, combine_output, salt) == Ok::<
                        Seq<char>,
                        (int, Seq<char>),
                    >(s@),
                    Err(e) => spec_sequential_script(executions@, combine_output, salt) matches Err(
                        (i, m),
                    ) && e@ == ExecutionErrorView::Failed(i, m),
                },
    {
        let salt = random_string(SUFFIX_RANDOM_SIZE);
        let r = self.script_with_salt(executions, combine_output, salt.as_str());
        assert(salt@.len() == SUFFIX_RANDOM_SIZE);
        r
    }
}

} // verus!

//! The body of a test case, generated from an outcome: the shell
//! expression, and expectations that match the output that was printed.
use vstd::prelude::*;

use crate::diff::{diff_lines_view, DiffLine, SpecDiffLine};
use crate::escaping::Escaper;
use crate::expectation::Expectation;
use crate::newline::{
    ends_in_newline, spec_assure_newline, spec_ends_in, spec_trim_newlines, trim_newlines_bytes,
    NL,
};
use crate::outcome::Outcome;
use crate::output::{spec_output_string, ExitStatus};
use crate::testcase::TestCaseError;
use crate::text::{chars_of, int_decimal_string, push_char, spec_int_decimal, string_from_chars};

verus! {

broadcast use vstd::string::group_string_axioms;

/// The characters with `> ` inserted after every line feed but a last one.
pub open spec fn spec_continued(e: Seq<char>) -> Seq<char>
    decreases e.len(),
{
    if e.len() == 0 {
        Seq::empty()
    } else if e[0] == '\n' && e.len() > 1 {
        seq!['\n', '>', ' '] + spec_continued(e.drop_first())
    } else {
        seq![e[0]] + spec_continued(e.drop_first())
    }
}

/// A shell expression as it is written in a test case body: the first line
/// after `$ `, each further line after `> `, each line ending in a line feed.
pub open spec fn spec_expression_block(expression: Seq<char>) -> Seq<char> {
    seq!['$', ' '] + spec_continued(spec_assure_newline(expression, '\n'))
}

/// The exit code line of a generated test case: `[<code>]` for a non-zero
/// exit code, nothing otherwise.
pub open spec fn spec_exit_code_line(status: ExitStatus) -> Seq<char> {
    match status {
        ExitStatus::Code(c) => if c != 0 {
            seq!['['] + spec_int_decimal(c as int) + seq![']', '\n']
        } else {
            Seq::empty()
        },
        _ => Seq::empty(),
    }
}

/// The original expressions of the expectations, one per line.
pub open spec fn spec_originals(es: Seq<Expectation>) -> Seq<char>
    decreases es.len(),
{
    if es.len() == 0 {
        Seq::empty()
    } else {
        spec_originals(es.drop_last()) + spec_assure_newline(es.last().original@, '\n')
    }
}

/// Output lines without expectation, written as expectations: the escaped
/// line, ` (no-eol)` if it lacks its line feed, and a line feed.
pub open spec fn spec_unexpected_lines(escaper: Escaper, lines: Seq<(int, Seq<u8>)>) -> Seq<char>
    decreases lines.len(),
{
    if lines.len() == 0 {
        Seq::empty()
    } else {
        let l = lines.last().1;
        spec_unexpected_lines(escaper, lines.drop_last()) + escaper.spec_escaped_expectation(
            spec_trim_newlines(l, NL),
        ) + (if spec_ends_in(l, NL) {
            Seq::empty()
        } else {
            " (no-eol)"@
        }) + seq!['\n']
    }
}

/// The expectations for the lines of a comparison: matched expectations as
/// they were written, unexpected lines as new expectations, and nothing for
/// expectations that did not match.
pub open spec fn spec_diff_block(escaper: Escaper, d: Seq<SpecDiffLine>) -> Seq<char>
    decreases d.len(),
{
    if d.len() == 0 {
        Seq::empty()
    } else {
        spec_diff_block(escaper, d.drop_last()) + match d.last() {
            SpecDiffLine::Matched { expectation, .. } => spec_assure_newline(
                expectation.original@,
                '\n',
            ),
            SpecDiffLine::Unexpected { lines } => spec_unexpected_lines(escaper, lines),
            SpecDiffLine::Unmatched { .. } => Seq::empty(),
        }
    }
}

/// The output of a test case with an unexpected exit code, as expectations.
pub open spec fn spec_exit_output(escaper: Escaper, stdout: Seq<u8>) -> Seq<char> {
    let out = spec_output_string(escaper, ""@, stdout);
    if out.len() > 0 && out.last() != '\n' {
        out + " (no-eol)\n"@
    } else {
        out
    }
}

/// The test case body that an outcome gives, or why there is none.
pub open spec fn spec_generate_testcase(o: Outcome) -> Result<Seq<char>, Seq<char>> {
    let expression = spec_expression_block(o.testcase.shell_expression@);
    let code = spec_exit_code_line(o.output.exit_code);
    match o.result {
        Ok(_) => Ok(expression + spec_originals(o.testcase.expectations@) + code),
        Err(TestCaseError::MalformedOutput(d)) => Ok(
            expression + spec_diff_block(o.escaping, diff_lines_view(d.lines@)) + code,
        ),
        Err(TestCaseError::InvalidExitCode { actual, .. }) => Ok(
            expression + spec_exit_output(o.escaping, o.output.stdout.0@) + seq!['[']
                + spec_int_decimal(actual as int) + seq![']', '\n'],
        ),
        Err(TestCaseError::InternalError(m)) => Err(
            "cannot generate testcase from internal error: "@ + m@,
        ),
        Err(TestCaseError::Timeout) => Err("cannot generate testcase from timed out execution"@),
        Err(TestCaseError::Skipped) => Err("cannot generate skipped testcase"@),
    }
}

/// The lines of a test case body that render the output of an outcome.
fn push_unexpected(out: &mut String, escaper: &Escaper, lines: &Vec<(usize, Vec<u8>)>)
    ensures
        final(out)@ == old(out)@ + spec_unexpected_lines(
            *escaper,
            crate::diff::numbered_view(lines@),
        ),
{
    let ghost nv = crate::diff::numbered_view(lines@);
    let ghost start = out@;
    let mut i: usize = 0;
    while i < lines.len()
        invariant
            i <= lines@.len(),
            nv == crate::diff::numbered_view(lines@),
            out@ == start + spec_unexpected_lines(*escaper, nv.take(i as int)),
        decreases lines@.len() - i,
    {
        let line = lines[i].1.as_slice();
        let escaped = escaper.escaped_expectation(trim_newlines_bytes(line));
        out.append(escaped.as_str());
        if !ends_in_newline(line) {
            out.append(" (no-eol)");
        }
        push_char(out, '\n');
        proof {
            assert(nv.take(i + 1).drop_last() == nv.take(i as int));
            assert(nv.take(i + 1).last() == nv[i as int]);
            assert(nv[i as int].1 == lines@[i as int].1@);
        }
        i = i + 1;
    }
    assert(nv.take(lines@.len() as int) == nv);
}

impl Outcome {
    /// The shell expression of the test case as it is written in a test
    /// case body.
    pub fn generate_testcase_expression(&self) -> (r: String)
        ensures
            r@ == spec_expression_block(self.testcase.shell_expression@),
    {
        let e = crate::newline::assure_newline(self.testcase.shell_expression.as_str());
        let cs = chars_of(e.as_str());
        let ghost ev = cs@;
        let mut out: Vec<char> = Vec::new();
        out.push('$');
        out.push(' ');
        let ghost head = out@;
        let mut i: usize = 0;
        assert(cs@.skip(0) == cs@);
        while i < cs.len()
            invariant
                i <= cs@.len(),
                ev == cs@,
                head == seq!['$', ' '],
                head + spec_continued(ev) == out@ + spec_continued(ev.skip(i as int)),
            decreases cs@.len() - i,
        {
            let ghost rest = ev.skip(i as int);
            assert(rest.drop_first() == ev.skip(i + 1));
            assert(rest[0] == cs@[i as int]);
            if cs[i] == '\n' && i + 1 < cs.len() {
                out.push('\n');
                out.push('>');
                out.push(' ');
                assert(spec_continued(rest) == seq!['\n', '>', ' '] + spec_continued(ev.skip(i + 1)));
            } else {
                out.push(cs[i]);
                assert(spec_continued(rest) == seq![cs@[i as int]] + spec_continued(ev.skip(i + 1)));
            }
            i = i + 1;
        }
        assert(ev.skip(i as int) == Seq::<char>::empty());
        assert(out@ + Seq::<char>::empty() == out@);
        string_from_chars(out.as_slice())
    }

    /// The exit code line, for a non-zero exit code.
    pub fn generate_testcase_exit_code(&self) -> (r: Option<String>)
        ensures
            match r {
                Some(s) => s@ == spec_exit_code_line(self.output.exit_code) && s@.len() > 0,
                None => spec_exit_code_line(self.output.exit_code).len() == 0,
            },
    {
        match &self.output.exit_code {
            ExitStatus::Code(code) => {
                if *code != 0 {
                    proof {
                        reveal_strlit("[");
                        reveal_strlit("]\n");
                    }
                    let mut s = "[".to_owned();
                    s.append(int_decimal_string(*code as i64).as_str());
                    s.append("]\n");
                    Some(s)
                } else {
                    None
                }
            },
            _ => None,
        }
    }

    /// The body of a test case whose expectations match the output of this
    /// outcome: the shell expression; then the expectations if the output
    /// was valid, the matched expectations and the unexpected lines if the
    /// output was malformed, or the whole output if the exit code was
    /// unexpected; then the exit code, if not zero. There is none for an
    /// outcome that was skipped, timed out or failed internally.
    pub fn generate_testcase(&self) -> (r: Result<String, String>)
        ensures
            match r {
                Ok(s) => spec_generate_testcase(*self) == Ok::<Seq<char>, Seq<char>>(s@),
                Err(m) => spec_generate_testcase(*self) == Err::<Seq<char>, Seq<char>>(m@),
            },
    {
        match &self.result {
            Ok(_) => {
                let mut generated = self.generate_testcase_expression();
                let es = &self.testcase.expectations;
                let ghost start = generated@;
                let mut i: usize = 0;
                while i < es.len()
                    invariant
                        i <= es@.len(),
                        generated@ == start + spec_originals(es@.take(i as int)),
                    decreases es@.len() - i,
                {
                    let line = crate::newline::assure_newline(es[i].original.as_str());
                    generated.append(line.as_str());
                    proof {
                        assert(es@.take(i + 1).drop_last() == es@.take(i as int));
                        assert(es@.take(i + 1).last() == es@[i as int]);
                    }
                    i = i + 1;
                }
                assert(es@.take(es@.len() as int) == es@);
                if let Some(code) = self.generate_testcase_exit_code() {
                    generated.append(code.as_str());
                } else {
                    assert(generated@ + Seq::<char>::empty() == generated@);
                }
                assert(generated@ == spec_generate_testcase(*self)->Ok_0);
                Ok(generated)
            },
            Err(TestCaseError::MalformedOutput(diff)) => {
                let mut generated = self.generate_testcase_expression();
                let ghost start = generated@;
                let ghost dv = diff_lines_view(diff.lines@);
                let mut i: usize = 0;
                while i < diff.lines.len()
                    invariant
                        i <= diff.lines@.len(),
                        dv == diff_lines_view(diff.lines@),
                        generated@ == start + spec_diff_block(self.escaping, dv.take(i as int)),
                    decreases diff.lines@.len() - i,
                {
                    let ghost before = generated@;
                    proof {
                        assert(dv.take(i + 1).drop_last() == dv.take(i as int));
                        assert(dv.take(i + 1).last() == dv[i as int]);
                    }
                    match &diff.lines[i] {
                        DiffLine::MatchedExpectation { expectation, .. } => {
                            let line = crate::newline::assure_newline(
                                expectation.original.as_str(),
                            );
                            generated.append(line.as_str());
                        },
                        DiffLine::UnexpectedLines { lines } => {
                            push_unexpected(&mut generated, &self.escaping, lines);
                        },
                        DiffLine::UnmatchedExpectation { .. } => {
                            assert(generated@ == before + Seq::<char>::empty());
                        },
                    }
                    i = i + 1;
                }
                assert(dv.take(diff.lines@.len() as int) == dv);
                if let Some(code) = self.generate_testcase_exit_code() {
                    generated.append(code.as_str());
                } else {
                    assert(generated@ + Seq::<char>::empty() == generated@);
                }
                assert(generated@ == spec_generate_testcase(*self)->Ok_0);
                Ok(generated)
            },
            Err(TestCaseError::InvalidExitCode { actual, .. }) => {
                let mut generated = self.generate_testcase_expression();
                let mut output = self.output.stdout.to_output_string(None, &self.escaping);
                let ocs = chars_of(output.as_str());
                if ocs.len() > 0 && ocs[ocs.len() - 1] != '\n' {
                    output.append(" (no-eol)\n");
                }
                generated.append(output.as_str());
                proof {
                    reveal_strlit("[");
                    reveal_strlit("]\n");
                }
                generated.append("[");
                generated.append(int_decimal_string(*actual as i64).as_str());
                generated.append("]\n");
                assert(generated@ == spec_generate_testcase(*self)->Ok_0);
                Ok(generated)
            },
            Err(TestCaseError::InternalError(err)) => {
                let mut m = "cannot generate testcase from internal error: ".to_owned();
                m.append(err.as_str());
                Err(m)
            },
            Err(TestCaseError::Timeout) => Err(
                "cannot generate testcase from timed out execution".to_owned(),
            ),
            Err(TestCaseError::Skipped) => Err("cannot generate skipped testcase".to_owned()),
        }
    }
}

} // verus!

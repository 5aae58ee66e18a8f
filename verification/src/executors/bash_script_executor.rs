//! The execution of all shell expressions of a document within one bash
//! script: a divider is printed after each expression, by which the output
//! of the script is divided among the test cases.
use rand::Rng;
use vstd::prelude::*;

use crate::config::{OutputStreamControl, TestCaseConfig, TestCaseConfigView};
use crate::executors::divider::{
    generate_divider, parse_divider_bytes, spec_generate_divider, spec_parse_divider,
    DividerSearch, DividerSearchView,
};
use crate::executors::error::{
    outputs_view, ExecutionError, ExecutionErrorView, ExecutionTimeout,
};
use crate::newline::{byte_lines_view, spec_split_lines, split_at_newline};
use crate::output::{ExitStatus, Output, OutputStream, OutputView};
use crate::testcase::TestCase;
use crate::text::{decimal_string, spec_decimal};

verus! {

/// The message of an output divided in an unexpected order.
pub open spec fn spec_unexpected_index_message(name: Seq<char>, expected: nat, found: nat) -> Seq<
    char,
> {
    "unexpected result in "@ + name + " (expected index "@ + spec_decimal(expected) + ", found "@
        + spec_decimal(found) + ")"@
}

/// Why an output stream could not be divided.
#[derive(Debug, Clone, PartialEq)]
pub enum DivideError {
    /// A divider is malformed or out of order; the index of the execution
    /// it concerns and why
    Failed { index: usize, error: String },
    /// A divider names an index at or beyond the limit
    Exceeded { index: usize },
}

/// The abstract value of a [`DivideError`].
pub enum DivideErrorView {
    Failed(int, Seq<char>),
    Exceeded(int),
}

impl View for DivideError {
    type V = DivideErrorView;

    open spec fn view(&self) -> DivideErrorView {
        match self {
            DivideError::Failed { index, error } => DivideErrorView::Failed(*index as int, error@),
            DivideError::Exceeded { index } => DivideErrorView::Exceeded(*index as int),
        }
    }
}

/// Dividing the lines from index `i` on, where `expected` is the index of
/// the next divider and `buffer` the output since the last one: the
/// segments (index, output, exit code), or the first error. A divider
/// whose index reaches the limit (if there is one) is an error. Output
/// after the last divider belongs to none.
pub open spec fn spec_divide_from(
    lines: Seq<Seq<u8>>,
    i: int,
    expected: nat,
    buffer: Seq<u8>,
    name: Seq<char>,
    limit: Option<usize>,
) -> Result<Seq<(int, Seq<u8>, i32)>, DivideErrorView>
    decreases lines.len() - i,
{
    if i < 0 || i >= lines.len() {
        Ok(Seq::empty())
    } else {
        match spec_parse_divider(lines[i]) {
            Err(m) => Err(DivideErrorView::Failed(expected as int, m)),
            Ok(DividerSearchView::NotFound) => spec_divide_from(
                lines,
                i + 1,
                expected,
                buffer + lines[i],
                name,
                limit,
            ),
            Ok(DividerSearchView::Found { prefix, output_index, exit_code }) => {
                if output_index != expected {
                    Err(
                        DivideErrorView::Failed(
                            output_index as int,
                            spec_unexpected_index_message(name, expected, output_index as nat),
                        ),
                    )
                } else if limit matches Some(l) && output_index >= l {
                    Err(DivideErrorView::Exceeded(output_index as int))
                } else {
                    let segment = buffer + match prefix {
                        Some(p) => p,
                        None => Seq::empty(),
                    };
                    match spec_divide_from(lines, i + 1, expected + 1, Seq::empty(), name, limit) {
                        Ok(rest) => Ok(seq![(output_index as int, segment, exit_code)] + rest),
                        Err(e) => Err(e),
                    }
                }
            },
        }
    }
}

/// The segments of a divided output stream.
pub open spec fn spec_divide(output: Seq<u8>, name: Seq<char>, limit: Option<usize>) -> Result<
    Seq<(int, Seq<u8>, i32)>,
    DivideErrorView,
> {
    spec_divide_from(spec_split_lines(output), 0, 0, Seq::empty(), name, limit)
}

/// The abstract value of segments.
pub open spec fn segments_view(v: Seq<(usize, Vec<u8>, i32)>) -> Seq<(int, Seq<u8>, i32)> {
    v.map_values(|s: (usize, Vec<u8>, i32)| (s.0 as int, s.1@, s.2))
}

/// Divides an output stream by the dividers in it: for each divider, the
/// index it names, the output before it (since the previous divider) and
/// the exit code it names. Dividers must come in the order of their
/// indices, and below the limit if one is given.
pub fn iterate_divided_output(name: &str, output: &[u8], limit: Option<usize>) -> (r: Result<
    Vec<(usize, Vec<u8>, i32)>,
    DivideError,
>)
    ensures
        match r {
            Ok(segments) => spec_divide(output@, name@, limit) == Ok::<
                Seq<(int, Seq<u8>, i32)>,
                DivideErrorView,
            >(segments_view(segments@)),
            Err(e) => spec_divide(output@, name@, limit) == Err::<
                Seq<(int, Seq<u8>, i32)>,
                DivideErrorView,
            >(e@),
        },
{
    let lines = split_at_newline(output);
    let ghost lv = byte_lines_view(lines@);
    let mut segments: Vec<(usize, Vec<u8>, i32)> = Vec::new();
    let mut buffer: Vec<u8> = Vec::new();
    let mut expected: usize = 0;
    let mut i: usize = 0;
    while i < lines.len()
        invariant
            lv == byte_lines_view(lines@),
            lv == spec_split_lines(output@),
            i <= lv.len(),
            expected <= i,
            spec_divide(output@, name@, limit) == match spec_divide_from(
                lv,
                i as int,
                expected as nat,
                buffer@,
                name@,
                limit,
            ) {
                Ok(rest) => Ok(segments_view(segments@) + rest),
                Err(e) => Err(e),
            },
        decreases lv.len() - i,
    {
        let line = lines[i].as_slice();
        assert(line@ == lv[i as int]);
        match parse_divider_bytes(line) {
            Err(m) => {
                return Err(DivideError::Failed { index: expected, error: m });
            },
            Ok(DividerSearch::NotFound) => {
                let mut j: usize = 0;
                let ghost b0 = buffer@;
                while j < line.len()
                    invariant
                        j <= line@.len(),
                        buffer@ == b0 + line@.take(j as int),
                    decreases line@.len() - j,
                {
                    buffer.push(line[j]);
                    assert(line@.take(j + 1) == line@.take(j as int).push(line@[j as int]));
                    j = j + 1;
                }
                assert(line@.take(line@.len() as int) == line@);
            },
            Ok(DividerSearch::Found { prefix, output_index, exit_code }) => {
                if output_index != expected {
                    let mut m = "unexpected result in ".to_owned();
                    m.append(name);
                    m.append(" (expected index ");
                    m.append(decimal_string(expected as u64).as_str());
                    m.append(", found ");
                    m.append(decimal_string(output_index as u64).as_str());
                    m.append(")");
                    return Err(DivideError::Failed { index: output_index, error: m });
                }
                if let Some(l) = limit {
                    if output_index >= l {
                        return Err(DivideError::Exceeded { index: output_index });
                    }
                }
                let mut segment = buffer;
                let ghost b0 = segment@;
                match prefix {
                    Some(p) => {
                        let mut j: usize = 0;
                        while j < p.len()
                            invariant
                                j <= p@.len(),
                                segment@ == b0 + p@.take(j as int),
                            decreases p@.len() - j,
                        {
                            segment.push(p[j]);
                            assert(p@.take(j + 1) == p@.take(j as int).push(p@[j as int]));
                            j = j + 1;
                        }
                        assert(p@.take(p@.len() as int) == p@);
                    },
                    None => {
                        assert(segment@ == b0 + Seq::<u8>::empty());
                    },
                }
                let ghost before = segments@;
                segments.push((output_index, segment, exit_code));
                proof {
                    assert(segments_view(segments@) =~= segments_view(before).push(
                        (output_index as int, segment@, exit_code),
                    ));
                    if let Ok(rest) = spec_divide_from(
                        lv,
                        i + 1,
                        (expected + 1) as nat,
                        Seq::empty(),
                        name@,
                        limit,
                    ) {
                        assert(segments_view(before) + (seq![
                            (output_index as int, segment@, exit_code),
                        ] + rest) =~= segments_view(segments@) + rest);
                    }
                }
                buffer = Vec::new();
                assert(buffer@ =~= Seq::<u8>::empty());
                expected = expected + 1;
            },
        }
        i = i + 1;
    }
    assert(segments_view(segments@) + Seq::<(int, Seq<u8>, i32)>::empty() == segments_view(
        segments@,
    ));
    Ok(segments)
}

/// Dividing from an index on gives segments of consecutive indices, below
/// the limit if one is given.
pub proof fn lemma_divide_indices(
    lines: Seq<Seq<u8>>,
    i: int,
    expected: nat,
    buffer: Seq<u8>,
    name: Seq<char>,
    limit: Option<usize>,
)
    ensures
        spec_divide_from(lines, i, expected, buffer, name, limit) matches Ok(segs) ==> forall|
            k: int,
        |
            0 <= k < segs.len() ==> #[trigger] segs[k].0 == expected + k && (limit matches Some(l)
                ==> segs[k].0 < l),
    decreases lines.len() - i,
{
    if 0 <= i < lines.len() {
        match spec_parse_divider(lines[i]) {
            Ok(DividerSearchView::NotFound) => {
                lemma_divide_indices(lines, i + 1, expected, buffer + lines[i], name, limit);
            },
            Ok(DividerSearchView::Found { .. }) => {
                lemma_divide_indices(lines, i + 1, expected + 1, Seq::empty(), name, limit);
                if let Ok(segs) = spec_divide_from(lines, i, expected, buffer, name, limit) {
                    if let Ok(rest) = spec_divide_from(
                        lines,
                        i + 1,
                        expected + 1,
                        Seq::empty(),
                        name,
                        limit,
                    ) {
                        assert forall|k: int| 0 <= k < segs.len() implies #[trigger] segs[k].0
                            == expected + k && (limit matches Some(l) ==> segs[k].0 < l) by {
                            if k > 0 {
                                assert(segs[k] == rest[k - 1]);
                            }
                        }
                    }
                }
            },
            _ => {},
        }
    }
}

/// The outputs that the STDOUT segments give: empty STDERR, and the exit
/// code of each segment.
pub open spec fn spec_stdout_outputs(segs: Seq<(int, Seq<u8>, i32)>) -> Seq<OutputView> {
    Seq::new(
        segs.len(),
        |k: int| OutputView { stdout: segs[k].1, stderr: Seq::empty(), exit_code: ExitStatus::Code(segs[k].2) },
    )
}

/// The outputs with the STDERR of the `k`-th set to the `k`-th segment.
pub open spec fn spec_with_stderr(outs: Seq<OutputView>, esegs: Seq<(int, Seq<u8>, i32)>) -> Seq<
    OutputView,
> {
    Seq::new(
        outs.len(),
        |k: int|
            if k < esegs.len() {
                OutputView { stderr: esegs[k].1, ..outs[k] }
            } else {
                outs[k]
            },
    )
}

/// The first segment from index `k` on whose exit code is the skip code.
pub open spec fn spec_first_skip(segs: Seq<(int, Seq<u8>, i32)>, skip: i32, k: int) -> Option<int>
    decreases segs.len() - k,
{
    if k < 0 || k >= segs.len() {
        None
    } else if segs[k].2 == skip {
        Some(k)
    } else {
        spec_first_skip(segs, skip, k + 1)
    }
}

/// The outputs of the test cases that the output of a whole script gives:
/// the script's exit code first (the skip code skips the document, a timeout
/// or an unknown end aborts), then STDOUT divided among the test cases (the
/// first whose exit code is the skip code skips the document, and there
/// must be exactly one segment per test case), then, unless the streams are
/// combined, STDERR divided likewise.
pub open spec fn spec_assemble(out: OutputView, count: nat, skip: i32, combined: bool) -> Result<
    Seq<OutputView>,
    ExecutionErrorView,
> {
    match out.exit_code {
        ExitStatus::Timeout(_) => Err(
            ExecutionErrorView::Timeout(ExecutionTimeout::Total, Seq::empty()),
        ),
        ExitStatus::Unknown => Err(ExecutionErrorView::Aborted("execution failed"@, Some(out))),
        ExitStatus::Code(c) => if c == skip {
            Err(ExecutionErrorView::Skipped(0))
        } else {
            match spec_divide(out.stdout, "STDOUT"@, None) {
                Err(DivideErrorView::Failed(i, m)) => Err(ExecutionErrorView::Failed(i, m)),
                Err(DivideErrorView::Exceeded(i)) => Err(ExecutionErrorView::Failed(i, Seq::empty())),
                Ok(segs) => {
                    let outs = spec_stdout_outputs(segs);
                    match spec_first_skip(segs, skip, 0) {
                        Some(k) => Err(ExecutionErrorView::Skipped(k)),
                        None => if outs.len() != count {
                            Err(
                                ExecutionErrorView::Aborted(
                                    "expected "@ + spec_decimal(count) + " execution result(s) but found "@
                                        + spec_decimal(outs.len()),
                                    Some(out),
                                ),
                            )
                        } else if combined {
                            Ok(outs)
                        } else {
                            match spec_divide(out.stderr, "STDERR"@, Some(count as usize)) {
                                Err(DivideErrorView::Failed(i, m)) => Err(
                                    ExecutionErrorView::Failed(i, m),
                                ),
                                Err(DivideErrorView::Exceeded(i)) => Err(
                                    ExecutionErrorView::Aborted(
                                        "expected "@ + spec_decimal(count)
                                            + " STDERR outputs, but got at least "@ + spec_decimal(
                                            (i + 1) as nat,
                                        ),
                                        Some(outs[count - 1]),
                                    ),
                                ),
                                Ok(esegs) => Ok(spec_with_stderr(outs, esegs)),
                            }
                        },
                    }
                },
            }
        },
    }
}

/// Whether the outputs of a script for no test case would be assigned a
/// STDERR segment, for which there is no test case.
pub open spec fn spec_assemble_undefined(out: OutputView, count: nat, skip: i32, combined: bool) -> bool {
    &&& count == 0
    &&& !combined
    &&& out.exit_code matches ExitStatus::Code(c) && c != skip
    &&& spec_divide(out.stdout, "STDOUT"@, None) matches Ok(segs) && segs.len() == 0
    &&& spec_divide(out.stderr, "STDERR"@, Some(0)) matches Err(DivideErrorView::Exceeded(_))
}

/// Divides the output of a script that ran the shell expressions of
/// `testcase_count` test cases among them.
#[verifier::loop_isolation(false)]
pub fn assemble_outputs(
    output: &Output,
    testcase_count: usize,
    skip_code: i32,
    combined: bool,
) -> (r: Result<Vec<Output>, ExecutionError>)
    requires
        !spec_assemble_undefined(output@, testcase_count as nat, skip_code, combined),
        testcase_count < u64::MAX,
    ensures
        match r {
            Ok(outs) => spec_assemble(output@, testcase_count as nat, skip_code, combined) == Ok::<
                Seq<OutputView>,
                ExecutionErrorView,
            >(outputs_view(outs@)),
            Err(e) => spec_assemble(output@, testcase_count as nat, skip_code, combined) == Err::<
                Seq<OutputView>,
                ExecutionErrorView,
            >(e@),
        },
{
    match output.exit_code {
        ExitStatus::Code(code) => {
            if code == skip_code {
                return Err(ExecutionError::Skipped(0));
            }
        },
        ExitStatus::Timeout(_) => {
            let none: Vec<Output> = Vec::new();
            assert(outputs_view(none@) =~= Seq::empty());
            let r = ExecutionError::Timeout(ExecutionTimeout::Total, none);
            return Err(r);
        },
        ExitStatus::Unknown => {
            return Err(ExecutionError::aborted("execution failed".to_owned(), Some(Output::copy(output))));
        },
    }
    let segs = match iterate_divided_output("STDOUT", output.stdout.0.as_slice(), None) {
        Ok(s) => s,
        Err(DivideError::Failed { index, error }) => {
            return Err(ExecutionError::failed(index, error));
        },
        Err(DivideError::Exceeded { index }) => {
            return Err(ExecutionError::failed(index, String::new()));
        },
    };
    proof {
        reveal_strlit("STDOUT");
    }
    let ghost sv = segments_view(segs@);
    let mut outs: Vec<Output> = Vec::new();
    let mut k: usize = 0;
    while k < segs.len()
        invariant
            k <= segs@.len(),
            sv == segments_view(segs@),
            outputs_view(outs@) == spec_stdout_outputs(sv).take(k as int),
        decreases segs@.len() - k,
    {
        let o = Output {
            stderr: OutputStream(Vec::new()),
            stdout: OutputStream(vstd::slice::slice_to_vec(segs[k].1.as_slice())),
            exit_code: ExitStatus::Code(segs[k].2),
        };
        let ghost before = outs@;
        outs.push(o);
        proof {
            assert(o@ == spec_stdout_outputs(sv)[k as int]);
            assert(outputs_view(outs@) =~= outputs_view(before).push(o@));
            assert(spec_stdout_outputs(sv).take(k + 1) =~= spec_stdout_outputs(sv).take(
                k as int,
            ).push(o@));
        }
        k = k + 1;
    }
    assert(spec_stdout_outputs(sv).take(segs@.len() as int) == spec_stdout_outputs(sv));
    let mut k: usize = 0;
    while k < segs.len()
        invariant
            k <= segs@.len(),
            sv == segments_view(segs@),
            spec_first_skip(sv, skip_code, 0) == spec_first_skip(sv, skip_code, k as int),
        decreases segs@.len() - k,
    {
        assert(sv[k as int].2 == segs@[k as int].2);
        if segs[k].2 == skip_code {
            assert(spec_first_skip(sv, skip_code, k as int) == Some(k as int));
            return Err(ExecutionError::Skipped(k));
        }
        k = k + 1;
    }
    if outs.len() != testcase_count {
        let mut m = "expected ".to_owned();
        m.append(decimal_string(testcase_count as u64).as_str());
        m.append(" execution result(s) but found ");
        m.append(decimal_string(outs.len() as u64).as_str());
        return Err(ExecutionError::aborted(m, Some(Output::copy(output))));
    }
    if combined {
        return Ok(outs);
    }
    let esegs = match iterate_divided_output("STDERR", output.stderr.0.as_slice(), Some(testcase_count)) {
        Ok(s) => s,
        Err(DivideError::Failed { index, error }) => {
            return Err(ExecutionError::failed(index, error));
        },
        Err(DivideError::Exceeded { index }) => {
            proof {
                reveal_strlit("STDERR");
            }
            proof {
                lemma_exceeded_at_limit(
                    spec_split_lines(output.stderr.0@),
                    0,
                    0,
                    Seq::empty(),
                    "STDERR"@,
                    testcase_count,
                );
            }
            assert(index == testcase_count);
            assert(testcase_count > 0);
            let mut m = "expected ".to_owned();
            m.append(decimal_string(testcase_count as u64).as_str());
            m.append(" STDERR outputs, but got at least ");
            m.append(decimal_string(index as u64 + 1).as_str());
            let last = Output::copy(&outs[testcase_count - 1]);
            assert(last@ == spec_stdout_outputs(sv)[testcase_count - 1]);
            return Err(ExecutionError::aborted(m, Some(last)));
        },
    };
    proof {
        reveal_strlit("STDERR");
        lemma_split_lines_divide(output.stderr.0@, testcase_count);
    }
    let ghost ev = segments_view(esegs@);
    let ghost ov = outputs_view(outs@);
    let mut result: Vec<Output> = Vec::new();
    let mut k: usize = 0;
    while k < outs.len()
        invariant
            k <= outs@.len(),
            ov == outputs_view(outs@),
            ev == segments_view(esegs@),
            ev.len() <= ov.len(),
            outputs_view(result@) == spec_with_stderr(ov, ev).take(k as int),
        decreases outs@.len() - k,
    {
        let stderr = if k < esegs.len() {
            vstd::slice::slice_to_vec(esegs[k].1.as_slice())
        } else {
            vstd::slice::slice_to_vec(outs[k].stderr.0.as_slice())
        };
        let o = Output {
            stderr: OutputStream(stderr),
            stdout: OutputStream(vstd::slice::slice_to_vec(outs[k].stdout.0.as_slice())),
            exit_code: outs[k].exit_code,
        };
        let ghost before = result@;
        result.push(o);
        proof {
            assert(o@ == spec_with_stderr(ov, ev)[k as int]);
            assert(outputs_view(result@) =~= outputs_view(before).push(o@));
            assert(spec_with_stderr(ov, ev).take(k + 1) =~= spec_with_stderr(ov, ev).take(
                k as int,
            ).push(o@));
        }
        k = k + 1;
    }
    assert(spec_with_stderr(ov, ev).take(outs@.len() as int) == spec_with_stderr(ov, ev));
    Ok(result)
}

/// With a limit, the first divider beyond it has the limit as its index.
proof fn lemma_exceeded_at_limit(
    lines: Seq<Seq<u8>>,
    i: int,
    expected: nat,
    buffer: Seq<u8>,
    name: Seq<char>,
    limit: usize,
)
    requires
        expected <= limit,
    ensures
        spec_divide_from(lines, i, expected, buffer, name, Some(limit)) matches Err(
            DivideErrorView::Exceeded(x),
        ) ==> x == limit,
    decreases lines.len() - i,
{
    if 0 <= i < lines.len() {
        match spec_parse_divider(lines[i]) {
            Ok(DividerSearchView::NotFound) => {
                lemma_exceeded_at_limit(lines, i + 1, expected, buffer + lines[i], name, limit);
            },
            Ok(DividerSearchView::Found { output_index, .. }) => {
                if output_index == expected && output_index < limit {
                    lemma_exceeded_at_limit(lines, i + 1, expected + 1, Seq::empty(), name, limit);
                }
            },
            _ => {},
        }
    }
}

/// With a limit, dividing gives no more segments than the limit.
proof fn lemma_split_lines_divide(stderr: Seq<u8>, limit: usize)
    ensures
        spec_divide(stderr, "STDERR"@, Some(limit)) matches Ok(segs) ==> segs.len() <= limit,
{
    lemma_divide_indices(spec_split_lines(stderr), 0, 0, Seq::empty(), "STDERR"@, Some(limit));
    if let Ok(segs) = spec_divide(stderr, "STDERR"@, Some(limit)) {
        if segs.len() > limit {
            assert(segs[limit as int].0 == limit);
        }
    }
}

/// Whether `shell_escape::unix::escape` leaves the character as it is.
pub open spec fn is_shell_safe(c: char) -> bool {
    ('a' <= c <= 'z') || ('A' <= c <= 'Z') || ('0' <= c <= '9') || c == '-' || c == '_' || c == '='
        || c == '/' || c == ',' || c == '.' || c == '+'
}

/// The characters between the quotes of a quoted text: `'` and `!` are
/// written as `'\''` and `'\!'`.
pub open spec fn spec_quote_body(s: Seq<char>) -> Seq<char>
    decreases s.len(),
{
    if s.len() == 0 {
        Seq::empty()
    } else {
        spec_quote_body(s.drop_last()) + if s.last() == '\'' || s.last() == '!' {
            seq!['\'', '\\', s.last(), '\'']
        } else {
            seq![s.last()]
        }
    }
}

/// What `shell_escape::unix::escape` makes of a text: the text itself if it
/// is not empty and all its characters are safe, else the text in single
/// quotes.
pub open spec fn spec_shell_escape(s: Seq<char>) -> Seq<char> {
    if s.len() > 0 && forall|i: int| 0 <= i < s.len() ==> is_shell_safe(#[trigger] s[i]) {
        s
    } else {
        seq!['\''] + spec_quote_body(s) + seq!['\'']
    }
}

/// Escapes a text for a POSIX shell, through `shell_escape::unix::escape`:
/// the text itself if it is not empty and made of letters, digits and
/// `-_=/,.+` only, else the text in single quotes in which `'` and `!` are
/// written as `'\''` and `'\!'`.
#[verifier::external_body]
fn shell_escape_unix(s: &str) -> (r: String)
    ensures
        r@ == spec_shell_escape(s@),
{
    shell_escape::unix::escape(std::borrow::Cow::from(s)).into_owned()
}

/// Whether the character is an ASCII letter or digit.
pub open spec fn is_alphanumeric_ascii(c: char) -> bool {
    ('a' <= c <= 'z') || ('A' <= c <= 'Z') || ('0' <= c <= '9')
}

/// A random text of ASCII letters and digits of the given length, drawn
/// through `rand`'s `Alphanumeric` distribution. What is drawn is left
/// unsaid beyond length and alphabet.
#[verifier::external_body]
pub(crate) fn random_string(size: usize) -> (r: String)
    ensures
        r@.len() == size,
        forall|i: int| 0 <= i < r@.len() ==> is_alphanumeric_ascii(#[trigger] r@[i]),
{
    rand::thread_rng().sample_iter(&rand::distributions::Alphanumeric).take(size).map(char::from).collect()
}

/// The export and unset lines for environment variables, or why a name
/// cannot be exported.
pub open spec fn spec_env_lines(env: Seq<(Seq<char>, Seq<char>)>) -> Result<
    (Seq<Seq<char>>, Seq<Seq<char>>),
    Seq<char>,
>
    decreases env.len(),
{
    if env.len() == 0 {
        Ok((Seq::empty(), Seq::empty()))
    } else {
        match spec_env_lines(env.drop_last()) {
            Err(m) => Err(m),
            Ok((exports, unsets)) => {
                let (k, v) = env.last();
                let qk = spec_shell_escape(k);
                if qk != k {
                    Err("Environment variable "@ + qk + " contains invalid characters"@)
                } else {
                    Ok(
                        (
                            exports.push("export "@ + qk + "="@ + spec_shell_escape(v)),
                            unsets.push("unset "@ + qk),
                        ),
                    )
                }
            },
        }
    }
}

/// The script lines of one shell expression: its environment exported, the
/// expression, an empty line, the divider printed (on STDERR too unless the
/// streams are combined), and its environment unset.
pub open spec fn spec_execution_lines(
    expression: Seq<char>,
    env: Seq<(Seq<char>, Seq<char>)>,
    index: nat,
    combined: bool,
    salt: Seq<char>,
) -> Result<Seq<Seq<char>>, Seq<char>> {
    match spec_env_lines(env) {
        Err(m) => Err(m),
        Ok((exports, unsets)) => {
            let footer = spec_generate_divider(salt, index);
            Ok(
                exports + seq![expression, Seq::empty(), "echo \""@ + footer + "\""@] + (if combined {
                    Seq::empty()
                } else {
                    seq!["1>&2 echo \""@ + footer + "\""@]
                }) + unsets,
            )
        },
    }
}

/// The script lines of one test case, which cannot have its own timeout.
pub open spec fn spec_testcase_lines(
    tc: crate::testcase::TestCaseView,
    index: nat,
    combined: bool,
    salt: Seq<char>,
) -> Result<Seq<Seq<char>>, Seq<char>> {
    if tc.config.timeout is Some {
        Err("timeout per execution not supported in bash-script execution"@)
    } else {
        spec_execution_lines(tc.shell_expression, tc.config.environment, index, combined, salt)
    }
}

/// The script lines of the test cases from index `i` on, or the index of the
/// first that cannot be scripted and why.
pub open spec fn spec_script_from(
    tcs: Seq<crate::testcase::TestCaseView>,
    i: int,
    combined: bool,
    salt: Seq<char>,
) -> Result<Seq<Seq<char>>, (int, Seq<char>)>
    decreases tcs.len() - i,
{
    if i < 0 || i >= tcs.len() {
        Ok(Seq::empty())
    } else {
        match spec_testcase_lines(tcs[i], i as nat, combined, salt) {
            Err(m) => Err((i, m)),
            Ok(lines) => match spec_script_from(tcs, i + 1, combined, salt) {
                Err(e) => Err(e),
                Ok(rest) => Ok(lines + rest),
            },
        }
    }
}

/// The script that runs the shell expressions of the test cases in one
/// shell, one after the other, each followed by its divider.
pub open spec fn spec_compile_script(
    tcs: Seq<crate::testcase::TestCaseView>,
    combined: bool,
    salt: Seq<char>,
) -> Result<Seq<char>, (int, Seq<char>)> {
    match spec_script_from(tcs, 0, combined, salt) {
        Ok(lines) => Ok(crate::text::spec_join_newline(lines)),
        Err(e) => Err(e),
    }
}

pub(crate) fn push_lines(out: &mut Vec<String>, lines: &Vec<String>)
    ensures
        crate::text::strings_view(final(out)@) == crate::text::strings_view(old(out)@)
            + crate::text::strings_view(lines@),
{
    let ghost start = crate::text::strings_view(out@);
    let mut i: usize = 0;
    while i < lines.len()
        invariant
            i <= lines@.len(),
            crate::text::strings_view(out@) == start + crate::text::strings_view(lines@).take(
                i as int,
            ),
        decreases lines@.len() - i,
    {
        let ghost before = out@;
        let l = lines[i].clone();
        out.push(l);
        proof {
            assert(crate::text::strings_view(out@) =~= crate::text::strings_view(before).push(l@));
            assert(crate::text::strings_view(lines@).take(i + 1) =~= crate::text::strings_view(
                lines@,
            ).take(i as int).push(lines@[i as int]@));
        }
        i = i + 1;
    }
    assert(crate::text::strings_view(lines@).take(lines@.len() as int) == crate::text::strings_view(
        lines@,
    ));
}

/// The export and unset lines for the environment variables, or why a name
/// cannot be exported (see [`spec_env_lines`]).
pub fn env_lines(env: &Vec<(String, String)>) -> (r: Result<(Vec<String>, Vec<String>), String>)
    ensures
        match r {
            Ok((e, u)) => spec_env_lines(crate::config::env_view(env@)) == Ok::<
                (Seq<Seq<char>>, Seq<Seq<char>>),
                Seq<char>,
            >((crate::text::strings_view(e@), crate::text::strings_view(u@))),
            Err(m) => spec_env_lines(crate::config::env_view(env@)) == Err::<
                (Seq<Seq<char>>, Seq<Seq<char>>),
                Seq<char>,
            >(m@),
        },
{
    let ghost ev = crate::config::env_view(env@);
    let mut exports: Vec<String> = Vec::new();
    let mut unsets: Vec<String> = Vec::new();
    assert(crate::text::strings_view(exports@) =~= Seq::empty());
    assert(crate::text::strings_view(unsets@) =~= Seq::empty());
    assert(ev.take(0) =~= Seq::empty());
    let mut i: usize = 0;
    while i < env.len()
        invariant
            i <= env@.len(),
            ev == crate::config::env_view(env@),
            spec_env_lines(ev.take(i as int)) == Ok::<(Seq<Seq<char>>, Seq<Seq<char>>), Seq<char>>(
                (crate::text::strings_view(exports@), crate::text::strings_view(unsets@)),
            ),
        decreases env@.len() - i,
    {
        proof {
            assert(ev.take(i + 1).drop_last() == ev.take(i as int));
            assert(ev.take(i + 1).last() == (env@[i as int].0@, env@[i as int].1@));
        }
        let key = env[i].0.as_str();
        let qkey = shell_escape_unix(key);
        if !crate::text::str_equal(qkey.as_str(), key) {
            let mut m = "Environment variable ".to_owned();
            m.append(qkey.as_str());
            m.append(" contains invalid characters");
            proof {
                lemma_env_lines_prefix_err(ev, (i + 1) as int);
            }
            return Err(m);
        }
        let qval = shell_escape_unix(env[i].1.as_str());
        let mut export = "export ".to_owned();
        export.append(qkey.as_str());
        export.append("=");
        export.append(qval.as_str());
        let mut unset = "unset ".to_owned();
        unset.append(qkey.as_str());
        let ghost e0 = exports@;
        let ghost u0 = unsets@;
        exports.push(export);
        unsets.push(unset);
        proof {
            assert(crate::text::strings_view(exports@) =~= crate::text::strings_view(e0).push(
                export@,
            ));
            assert(crate::text::strings_view(unsets@) =~= crate::text::strings_view(u0).push(
                unset@,
            ));
        }
        i = i + 1;
    }
    assert(ev.take(env@.len() as int) == ev);
    Ok((exports, unsets))
}

/// An error in the environment of a prefix is the error of the whole.
proof fn lemma_env_lines_prefix_err(env: Seq<(Seq<char>, Seq<char>)>, k: int)
    requires
        0 <= k <= env.len(),
        spec_env_lines(env.take(k)) is Err,
    ensures
        spec_env_lines(env) == spec_env_lines(env.take(k)),
    decreases env.len() - k,
{
    if k < env.len() {
        assert(env.take(k + 1).drop_last() == env.take(k));
        lemma_env_lines_prefix_err(env, k + 1);
    } else {
        assert(env.take(k) == env);
    }
}

/// The script lines of one shell expression with its environment, followed
/// by the divider with the given index and salt.
pub(crate) fn execution_lines(
    expression: &str,
    env: &Vec<(String, String)>,
    index: usize,
    combined: bool,
    salt: &str,
) -> (r: Result<Vec<String>, String>)
    ensures
        match r {
            Ok(v) => spec_execution_lines(
                expression@,
                crate::config::env_view(env@),
                index as nat,
                combined,
                salt@,
            ) == Ok::<Seq<Seq<char>>, Seq<char>>(crate::text::strings_view(v@)),
            Err(m) => spec_execution_lines(
                expression@,
                crate::config::env_view(env@),
                index as nat,
                combined,
                salt@,
            ) == Err::<Seq<Seq<char>>, Seq<char>>(m@),
        },
{
    let (exports, unsets) = match env_lines(env) {
        Ok(p) => p,
        Err(m) => {
            return Err(m);
        },
    };
    let mut lines: Vec<String> = Vec::new();
    push_lines(&mut lines, &exports);
    let ghost a0 = lines@;
    let se = expression.to_owned();
    lines.push(se);
    let ghost a1 = lines@;
    let empty_line = String::new();
    lines.push(empty_line);
    let ghost a2 = lines@;
    let footer = generate_divider(salt, index);
    let mut echo = "echo \"".to_owned();
    echo.append(footer.as_str());
    echo.append("\"");
    let ghost echo_v = echo@;
    lines.push(echo);
    assert(crate::text::strings_view(lines@) =~= crate::text::strings_view(a0) + seq![
        expression@,
        Seq::<char>::empty(),
        echo_v,
    ]) by {
        assert(lines@ == a2.push(echo));
        assert(a2 == a1.push(empty_line));
        assert(a1 == a0.push(se));
    }
    let ghost mid = crate::text::strings_view(lines@);
    let mut echo_err = "1>&2 echo \"".to_owned();
    echo_err.append(footer.as_str());
    echo_err.append("\"");
    let ghost echo_err_v = echo_err@;
    if !combined {
        let ghost m0 = lines@;
        lines.push(echo_err);
        assert(crate::text::strings_view(lines@) =~= crate::text::strings_view(m0).push(
            echo_err_v,
        ));
    }
    let ghost mid2 = crate::text::strings_view(lines@);
    assert(mid2 =~= mid + (if combined {
        Seq::<Seq<char>>::empty()
    } else {
        seq![echo_err_v]
    }));
    push_lines(&mut lines, &unsets);
    assert(crate::text::strings_view(lines@) =~= crate::text::strings_view(exports@) + seq![
        expression@,
        Seq::<char>::empty(),
        echo_v,
    ] + (if combined {
        Seq::<Seq<char>>::empty()
    } else {
        seq![echo_err_v]
    }) + crate::text::strings_view(unsets@));
    Ok(lines)
}

/// Compiles the shell expressions of the test cases into one bash script,
/// in which each is followed by a divider with the given salt. Test cases
/// cannot have their own timeout, and their environment variables must be
/// valid names.
pub fn compile_script(testcases: &[TestCase], combined: bool, salt: &str) -> (r: Result<
    String,
    ExecutionError,
>)
    ensures
        match r {
            Ok(s) => spec_compile_script(
                crate::parsers::line_parser::testcases_view(testcases@),
                combined,
                salt@,
            ) == Ok::<Seq<char>, (int, Seq<char>)>(s@),
            Err(e) => spec_compile_script(
                crate::parsers::line_parser::testcases_view(testcases@),
                combined,
                salt@,
            ) matches Err((i, m)) && e@ == ExecutionErrorView::Failed(i, m),
        },
{
    let ghost tv = crate::parsers::line_parser::testcases_view(testcases@);
    let mut lines: Vec<String> = Vec::new();
    let mut index: usize = 0;
    while index < testcases.len()
        invariant
            index <= testcases@.len(),
            tv == crate::parsers::line_parser::testcases_view(testcases@),
            spec_script_from(tv, 0, combined, salt@) == match spec_script_from(
                tv,
                index as int,
                combined,
                salt@,
            ) {
                Ok(rest) => Ok(crate::text::strings_view(lines@) + rest),
                Err(e) => Err(e),
            },
        decreases testcases@.len() - index,
    {
        let tc = &testcases[index];
        assert(tv[index as int] == tc@);
        if tc.config.timeout.is_some() {
            return Err(
                ExecutionError::failed(
                    index,
                    "timeout per execution not supported in bash-script execution".to_owned(),
                ),
            );
        }
        let piece = match execution_lines(
            tc.shell_expression.as_str(),
            &tc.config.environment,
            index,
            combined,
            salt,
        ) {
            Ok(v) => v,
            Err(m) => {
                return Err(ExecutionError::failed(index, m));
            },
        };
        let ghost l0 = crate::text::strings_view(lines@);
        push_lines(&mut lines, &piece);
        proof {
            let pv = crate::text::strings_view(piece@);
            if let Ok(rest) = spec_script_from(tv, index + 1, combined, salt@) {
                assert(l0 + (pv + rest) =~= crate::text::strings_view(lines@) + rest);
            }
        }
        index = index + 1;
    }
    assert(crate::text::strings_view(lines@) + Seq::<Seq<char>>::empty() =~= crate::text::strings_view(
        lines@,
    ));
    Ok(crate::text::join_newline(&lines))
}

/// Taking over the configuration of the next test case into the shared
/// one: a value that is set in the shared configuration must be the same in
/// the test case; the environment of a test case must define the same
/// variables with the same values as that of the previous ones, if they set
/// one.
pub open spec fn spec_merge_step(acc: TestCaseConfigView, c: TestCaseConfigView) -> Result<
    TestCaseConfigView,
    Seq<char>,
> {
    if acc.detached is Some && acc.detached != c.detached {
        Err("inconsistent configuration value for detached"@)
    } else if acc.keep_crlf is Some && acc.keep_crlf != c.keep_crlf {
        Err("inconsistent configuration value for keep_crlf"@)
    } else if acc.output_stream is Some && acc.output_stream != c.output_stream {
        Err("inconsistent configuration value for output_stream"@)
    } else if acc.skip_code is Some && acc.skip_code != c.skip_code {
        Err("inconsistent configuration value for skip_code"@)
    } else if acc.wait is Some && acc.wait != c.wait {
        Err("inconsistent configuration value for wait"@)
    } else if acc.environment.len() > 0 && !crate::config::env_same_map(acc.environment, c.environment) {
        Err("inconsistent value for environment"@)
    } else {
        Ok(
            TestCaseConfigView {
                detached: if acc.detached is None {
                    c.detached
                } else {
                    acc.detached
                },
                keep_crlf: if acc.keep_crlf is None {
                    c.keep_crlf
                } else {
                    acc.keep_crlf
                },
                output_stream: if acc.output_stream is None {
                    c.output_stream
                } else {
                    acc.output_stream
                },
                skip_code: if acc.skip_code is None {
                    c.skip_code
                } else {
                    acc.skip_code
                },
                wait: if acc.wait is None {
                    c.wait
                } else {
                    acc.wait
                },
                environment: c.environment,
                timeout: acc.timeout,
            },
        )
    }
}

/// The shared configuration of the test cases from index `i` on, or the
/// index of the first that diverges and why.
pub open spec fn spec_merge_from(tcs: Seq<crate::testcase::TestCaseView>, i: int, acc: TestCaseConfigView) -> Result<
    TestCaseConfigView,
    (int, Seq<char>),
>
    decreases tcs.len() - i,
{
    if i < 0 || i >= tcs.len() {
        Ok(acc)
    } else {
        match spec_merge_step(acc, tcs[i].config) {
            Err(m) => Err((i, m)),
            Ok(next) => spec_merge_from(tcs, i + 1, next),
        }
    }
}

/// The default timeout over all test cases of a document, in milliseconds.
pub const DEFAULT_TOTAL_TIMEOUT_MS: u64 = 900000u64;

/// The test case that runs all test cases as one script: the shared
/// configuration with the timeout over all (the given one or the default;
/// zero means none), and the compiled script as its shell expression.
pub open spec fn spec_compile_testcase(
    tcs: Seq<crate::testcase::TestCaseView>,
    total_timeout: Option<u64>,
    salt: Seq<char>,
) -> Result<crate::testcase::TestCaseView, (int, Seq<char>)> {
    match spec_merge_from(tcs, 0, crate::config::spec_empty_config()) {
        Err(e) => Err(e),
        Ok(merged) => {
            let t = match total_timeout {
                Some(t) => t,
                None => DEFAULT_TOTAL_TIMEOUT_MS,
            };
            let config = if t != 0 {
                TestCaseConfigView { timeout: Some(t), ..merged }
            } else {
                merged
            };
            match spec_compile_script(
                tcs,
                config.output_stream == Some(OutputStreamControl::Combined),
                salt,
            ) {
                Err(e) => Err(e),
                Ok(script) => Ok(
                    crate::testcase::TestCaseView {
                        title: "Test Script"@,
                        shell_expression: script,
                        expectations: Seq::empty(),
                        exit_code: None,
                        line_number: 0,
                        config,
                    },
                ),
            }
        },
    }
}

fn wait_equal(a: &Option<crate::config::TestCaseWait>, b: &Option<crate::config::TestCaseWait>) -> (r: bool)
    ensures
        r == (match a {
            Some(w) => Some(w@),
            None => None::<crate::config::TestCaseWaitView>,
        } == match b {
            Some(w) => Some(w@),
            None => None::<crate::config::TestCaseWaitView>,
        }),
{
    match (a, b) {
        (None, None) => true,
        (Some(x), Some(y)) => {
            if x.timeout != y.timeout {
                return false;
            }
            match (&x.path, &y.path) {
                (None, None) => true,
                (Some(p), Some(q)) => crate::text::str_equal(p.as_str(), q.as_str()),
                _ => false,
            }
        },
        _ => false,
    }
}

/// Merges the configurations of the test cases into one shared
/// configuration, in which no parameter diverges.
pub fn merge_configs(testcases: &[TestCase]) -> (r: Result<TestCaseConfig, ExecutionError>)
    ensures
        match r {
            Ok(c) => spec_merge_from(
                crate::parsers::line_parser::testcases_view(testcases@),
                0,
                crate::config::spec_empty_config(),
            ) == Ok::<TestCaseConfigView, (int, Seq<char>)>(c@),
            Err(e) => spec_merge_from(
                crate::parsers::line_parser::testcases_view(testcases@),
                0,
                crate::config::spec_empty_config(),
            ) matches Err((i, m)) && e@ == ExecutionErrorView::Failed(i, m),
        },
{
    let ghost tv = crate::parsers::line_parser::testcases_view(testcases@);
    let mut config = TestCaseConfig::empty();
    let mut index: usize = 0;
    while index < testcases.len()
        invariant
            index <= testcases@.len(),
            tv == crate::parsers::line_parser::testcases_view(testcases@),
            spec_merge_from(tv, 0, crate::config::spec_empty_config()) == spec_merge_from(
                tv,
                index as int,
                config@,
            ),
        decreases testcases@.len() - index,
    {
        let c = &testcases[index].config;
        assert(tv[index as int].config == c@);
        if config.detached.is_some() && config.detached != c.detached {
            return Err(ExecutionError::failed(index, "inconsistent configuration value for detached".to_owned()));
        }
        if config.keep_crlf.is_some() && config.keep_crlf != c.keep_crlf {
            return Err(ExecutionError::failed(index, "inconsistent configuration value for keep_crlf".to_owned()));
        }
        if config.output_stream.is_some() && config.output_stream != c.output_stream {
            return Err(
                ExecutionError::failed(index, "inconsistent configuration value for output_stream".to_owned()),
            );
        }
        if config.skip_code.is_some() && config.skip_code != c.skip_code {
            return Err(ExecutionError::failed(index, "inconsistent configuration value for skip_code".to_owned()));
        }
        if config.wait.is_some() && !wait_equal(&config.wait, &c.wait) {
            return Err(ExecutionError::failed(index, "inconsistent configuration value for wait".to_owned()));
        }
        if config.environment.len() > 0 && !crate::config::env_equal(&config.environment, &c.environment) {
            return Err(ExecutionError::failed(index, "inconsistent value for environment".to_owned()));
        }
        if config.detached.is_none() {
            config.detached = c.detached;
        }
        if config.keep_crlf.is_none() {
            config.keep_crlf = c.keep_crlf;
        }
        if config.output_stream.is_none() {
            config.output_stream = c.output_stream;
        }
        if config.skip_code.is_none() {
            config.skip_code = c.skip_code;
        }
        if config.wait.is_none() {
            config.wait = crate::config::copy_wait(&c.wait);
        }
        config.environment = crate::config::copy_env(&c.environment);
        index = index + 1;
    }
    Ok(config)
}

/// Reduces the test cases to one that runs all their shell expressions in
/// one script, with the given salt in its dividers.
pub fn compile_testcase(testcases: &[TestCase], total_timeout: Option<u64>, salt: &str) -> (r: Result<
    TestCase,
    ExecutionError,
>)
    ensures
        match r {
            Ok(t) => spec_compile_testcase(
                crate::parsers::line_parser::testcases_view(testcases@),
                total_timeout,
                salt@,
            ) == Ok::<crate::testcase::TestCaseView, (int, Seq<char>)>(t@),
            Err(e) => spec_compile_testcase(
                crate::parsers::line_parser::testcases_view(testcases@),
                total_timeout,
                salt@,
            ) matches Err((i, m)) && e@ == ExecutionErrorView::Failed(i, m),
        },
{
    let mut config = merge_configs(testcases)?;
    let timeout = match total_timeout {
        Some(t) => t,
        None => DEFAULT_TOTAL_TIMEOUT_MS,
    };
    if timeout != 0 {
        config.timeout = Some(timeout);
    }
    let combined = match config.output_stream {
        Some(OutputStreamControl::Combined) => true,
        _ => false,
    };
    let script = compile_script(testcases, combined, salt)?;
    let testcase = TestCase {
        title: "Test Script".to_owned(),
        shell_expression: script,
        expectations: Vec::new(),
        exit_code: None,
        line_number: 0,
        config,
    };
    assert(crate::testcase::expectations_view(testcase.expectations@) =~= Seq::empty());
    Ok(testcase)
}

/// The length of the salt in dividers.
pub const SUFFIX_RANDOM_SIZE: usize = 20usize;

/// Reduces the test cases to one that runs all their shell expressions in
/// one script, with a random salt of twenty letters and digits.
pub fn prepare_script(testcases: &[TestCase], total_timeout: Option<u64>) -> (r: Result<
    TestCase,
    ExecutionError,
>)
    ensures
        exists|salt: Seq<char>|
            salt.len() == SUFFIX_RANDOM_SIZE && (forall|i: int|
                0 <= i < salt.len() ==> is_alphanumeric_ascii(#[trigger] salt[i])) && match r {
                Ok(t) => spec_compile_testcase(
                    crate::parsers::line_parser::testcases_view(testcases@),
                    total_timeout,
                    salt,
                ) == Ok::<crate::testcase::TestCaseView, (int, Seq<char>)>(t@),
                Err(e) => spec_compile_testcase(
                    crate::parsers::line_parser::testcases_view(testcases@),
                    total_timeout,
                    salt,
                ) matches Err((i, m)) && e@ == ExecutionErrorView::Failed(i, m),
            },
{
    let salt = random_string(SUFFIX_RANDOM_SIZE);
    let r = compile_testcase(testcases, total_timeout, salt.as_str());
    assert(salt@.len() == SUFFIX_RANDOM_SIZE);
    r
}

/// Runs all shell expressions of a document in one bash script.
pub struct BashScriptExecutor(pub String);

impl BashScriptExecutor {
    /// An executor that runs scripts with the bash at the given path.
    pub fn new(bash_path: &str) -> (r: Self)
        ensures
            r.0@ == bash_path@,
    {
        BashScriptExecutor(bash_path.to_owned())
    }
}

} // verus!

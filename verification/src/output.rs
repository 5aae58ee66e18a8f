//! The output of an execution: STDOUT, STDERR and how it ended.
use vstd::prelude::*;

use crate::escaping::Escaper;
use crate::newline::{byte_lines_view, spec_ends_in, spec_flatten, spec_split_lines, split_at_newline, NL};
use crate::text::{decimal_string, ends_with_str, int_decimal_string, spec_decimal, spec_ends_with, spec_int_decimal};

verus! {

/// How an execution ended.
#[derive(Debug, Clone, Copy, PartialEq, Eq, Structural)]
pub enum ExitStatus {
    /// The execution ended with this exit code
    Code(i32),
    /// The execution did not finish within this many milliseconds
    Timeout(u64),
    /// The execution failed for an unknown reason
    Unknown,
}

impl ExitStatus {
    /// Exit code 0 denotes success.
    pub fn success() -> (r: ExitStatus)
        ensures
            r == ExitStatus::Code(0),
    {
        ExitStatus::Code(0)
    }

    /// Exit code 80 denotes the intention to skip all tests in the file.
    pub fn skip() -> (r: ExitStatus)
        ensures
            r == ExitStatus::Code(80),
    {
        ExitStatus::Code(80)
    }

    /// The exit code as an integer: -1 for a timeout, -255 for unknown.
    pub open spec fn spec_as_code(self) -> i32 {
        match self {
            ExitStatus::Code(code) => code,
            ExitStatus::Timeout(_) => -1i32,
            ExitStatus::Unknown => -255i32,
        }
    }

    /// Returns the exit code as integer with -1 for timeout and -255 for unknown.
    pub fn as_code(&self) -> (r: i32)
        ensures
            r == self.spec_as_code(),
    {
        match self {
            ExitStatus::Code(code) => *code,
            ExitStatus::Timeout(_) => -1,
            ExitStatus::Unknown => -255,
        }
    }

    /// The textual form: the code, `timeout[<ms>ms]` or `unknown`.
    pub open spec fn spec_to_string(self) -> Seq<char> {
        match self {
            ExitStatus::Code(code) => spec_int_decimal(code as int),
            ExitStatus::Timeout(ms) => "timeout["@ + spec_decimal(ms as nat) + "ms]"@,
            ExitStatus::Unknown => "unknown"@,
        }
    }

    /// The textual form: the code, `timeout[<ms>ms]` or `unknown`.
    pub fn to_display_string(&self) -> (r: String)
        ensures
            r@ == self.spec_to_string(),
    {
        match self {
            ExitStatus::Code(code) => int_decimal_string(*code as i64),
            ExitStatus::Timeout(ms) => {
                let mut s = "timeout[".to_owned();
                let d = decimal_string(*ms);
                s.append(d.as_str());
                s.append("ms]");
                s
            },
            ExitStatus::Unknown => "unknown".to_owned(),
        }
    }
}

/// The bytes of one output stream.
#[derive(Debug, Clone, PartialEq, Eq)]
pub struct OutputStream(pub Vec<u8>);

/// The suffix that marks a last line without LF.
pub open spec fn no_eol_marker() -> Seq<char> {
    " (no-eol)"@
}

/// One rendered line of an output stream: the prefix, the expectation form
/// of the line, ` (no-eol)` if it is the last line, lacks its LF and is not
/// escaped, and a LF.
pub open spec fn spec_output_line(
    escaper: Escaper,
    prefix: Seq<char>,
    lines: Seq<Seq<u8>>,
    i: int,
    ends_in_newline: bool,
) -> Seq<char> {
    let expectation = escaper.spec_escaped_expectation(lines[i]);
    let suffix = if !ends_in_newline && !spec_ends_with(expectation, " (escaped)"@) && i + 1
        == lines.len() {
        no_eol_marker()
    } else {
        ""@
    };
    prefix + expectation + suffix + "\n"@
}

/// The rendering of an output stream as expectation lines.
pub open spec fn spec_output_string(escaper: Escaper, prefix: Seq<char>, bytes: Seq<u8>) -> Seq<char> {
    let lines = spec_split_lines(bytes);
    let ends = spec_ends_in(bytes, NL);
    spec_flatten(Seq::new(lines.len(), |i: int| spec_output_line(escaper, prefix, lines, i, ends)))
}

/// Flattening a sequence with one more element appends that element.
pub proof fn lemma_flatten_push<A>(ss: Seq<Seq<A>>, x: Seq<A>)
    ensures
        spec_flatten(ss.push(x)) == spec_flatten(ss) + x,
    decreases ss.len(),
{
    if ss.len() == 0 {
        assert(ss.push(x).drop_first() == Seq::<Seq<A>>::empty());
        assert(ss.push(x)[0] == x);
        assert(spec_flatten(Seq::<Seq<A>>::empty()) == Seq::<A>::empty());
        assert(spec_flatten(ss) == Seq::<A>::empty());
        assert(x + Seq::<A>::empty() == x);
        assert(Seq::<A>::empty() + x == x);
    } else {
        lemma_flatten_push(ss.drop_first(), x);
        assert(ss.push(x).drop_first() == ss.drop_first().push(x));
        assert(ss.push(x)[0] == ss[0]);
        assert(ss[0] + (spec_flatten(ss.drop_first()) + x) == (ss[0] + spec_flatten(ss.drop_first())) + x);
    }
}

/// Each line of output gives one rendered line that ends in a line feed, so
/// the rendering is empty exactly when the output is.
pub proof fn law_output_string_empty_iff_no_output(escaper: Escaper, prefix: Seq<char>, bytes: Seq<u8>)
    ensures
        spec_output_string(escaper, prefix, bytes).len() == 0 <==> bytes.len() == 0,
{
    let lines = spec_split_lines(bytes);
    let ends = spec_ends_in(bytes, NL);
    let parts = Seq::new(lines.len(), |i: int| spec_output_line(escaper, prefix, lines, i, ends));
    crate::newline::law_split_lines_shape(bytes);
    if bytes.len() == 0 {
        assert(parts =~= Seq::<Seq<char>>::empty());
    } else {
        reveal_strlit("\n");
        assert(("\n"@).len() == 1);
        assert(parts[0] == spec_output_line(escaper, prefix, lines, 0, ends));
        assert(parts[0].len() >= 1);
        assert(spec_flatten(parts) == parts[0] + spec_flatten(parts.drop_first()));
    }
}

impl OutputStream {
    /// Renders the stream as expectation lines, each prefixed.
    pub fn to_output_string(&self, prefix: Option<&str>, escaper: &Escaper) -> (r: String)
        ensures
            r@ == spec_output_string(
                *escaper,
                match prefix {
                    Some(p) => p@,
                    None => ""@,
                },
                self.0@,
            ),
    {
        let prefix: &str = match prefix {
            Some(p) => p,
            None => "",
        };
        let mut out = String::new();
        let bytes = self.0.as_slice();
        let lines = split_at_newline(bytes);
        let ends_in_newline = !bytes.is_empty() && bytes[bytes.len() - 1] == NL;
        let ghost ls = spec_split_lines(bytes@);
        let ghost items = Seq::new(
            ls.len(),
            |i: int| spec_output_line(*escaper, prefix@, ls, i, ends_in_newline),
        );
        assert(ends_in_newline == spec_ends_in(bytes@, NL));
        assert(items.take(0) == Seq::<Seq<char>>::empty());
        let mut idx: usize = 0;
        while idx < lines.len()
            invariant
                idx <= lines@.len(),
                byte_lines_view(lines@) == ls,
                items.len() == ls.len(),
                forall|i: int|
                    0 <= i < ls.len() ==> #[trigger] items[i] == spec_output_line(
                        *escaper,
                        prefix@,
                        ls,
                        i,
                        ends_in_newline,
                    ),
                out@ == spec_flatten(items.take(idx as int)),
            decreases lines@.len() - idx,
        {
            let expectation = escaper.escaped_expectation(lines[idx].as_slice());
            assert(lines@[idx as int]@ == ls[idx as int]);
            let suffix = if !ends_in_newline && !ends_with_str(expectation.as_str(), " (escaped)")
                && idx + 1 == lines.len() {
                " (no-eol)"
            } else {
                ""
            };
            let ghost before = out@;
            out.append(prefix);
            out.append(expectation.as_str());
            out.append(suffix);
            out.append("\n");
            proof {
                assert(items.take(idx + 1) == items.take(idx as int).push(items[idx as int]));
                lemma_flatten_push(items.take(idx as int), items[idx as int]);
                assert(out@ == before + items[idx as int]);
            }
            idx = idx + 1;
        }
        assert(items.take(idx as int) == items);
        out
    }
}

/// The product of one execution: its output streams and how it ended.
#[derive(Debug, Clone, PartialEq, Eq)]
pub struct Output {
    /// The STDERR output of the execution
    pub stderr: OutputStream,
    /// The STDOUT output of the execution
    pub stdout: OutputStream,
    /// How the execution ended
    pub exit_code: ExitStatus,
}

/// The abstract value of an [`Output`].
pub struct OutputView {
    pub stdout: Seq<u8>,
    pub stderr: Seq<u8>,
    pub exit_code: ExitStatus,
}

impl View for Output {
    type V = OutputView;

    open spec fn view(&self) -> OutputView {
        OutputView { stdout: self.stdout.0@, stderr: self.stderr.0@, exit_code: self.exit_code }
    }
}

impl Output {
    /// A copy of the output.
    pub fn copy(&self) -> (r: Output)
        ensures
            r@ == self@,
    {
        Output {
            stderr: OutputStream(vstd::slice::slice_to_vec(self.stderr.0.as_slice())),
            stdout: OutputStream(vstd::slice::slice_to_vec(self.stdout.0.as_slice())),
            exit_code: self.exit_code,
        }
    }

    /// An output of the given streams and exit code; `None` for the code
    /// means the status is unknown.
    pub fn new(stdout: &[u8], stderr: &[u8], exit_code: Option<i32>) -> (r: Output)
        ensures
            r.stdout.0@ == stdout@,
            r.stderr.0@ == stderr@,
            r.exit_code == match exit_code {
                Some(c) => ExitStatus::Code(c),
                None => ExitStatus::Unknown,
            },
    {
        Output {
            stdout: OutputStream(vstd::slice::slice_to_vec(stdout)),
            stderr: OutputStream(vstd::slice::slice_to_vec(stderr)),
            exit_code: match exit_code {
                Some(c) => ExitStatus::Code(c),
                None => ExitStatus::Unknown,
            },
        }
    }

    /// An output with empty streams of an execution that timed out.
    pub fn timed_out(millis: u64) -> (r: Output)
        ensures
            r.stdout.0@.len() == 0,
            r.stderr.0@.len() == 0,
            r.exit_code == ExitStatus::Timeout(millis),
    {
        Output {
            stdout: OutputStream(Vec::new()),
            stderr: OutputStream(Vec::new()),
            exit_code: ExitStatus::Timeout(millis),
        }
    }

    /// The rendering of both streams for an error report.
    pub open spec fn spec_error_string(self, escaper: Escaper) -> Seq<char> {
        "## STDOUT\n"@ + spec_output_string(escaper, "#> "@, self.stdout.0@) + "## STDERR\n"@
            + spec_output_string(escaper, "#> "@, self.stderr.0@)
    }

    /// Renders both streams for an error report.
    pub fn to_error_string(&self, escaper: &Escaper) -> (r: String)
        ensures
            r@ == self.spec_error_string(*escaper),
    {
        let mut err = "## STDOUT\n".to_owned();
        let out = self.stdout.to_output_string(Some("#> "), escaper);
        err.append(out.as_str());
        err.append("## STDERR\n");
        let e = self.stderr.to_output_string(Some("#> "), escaper);
        err.append(e.as_str());
        err
    }
}

} // verus!

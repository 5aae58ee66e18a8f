//! The line by line engine shared by the document parsers: it gathers the
//! shell expression, output expectations and exit code of test cases that
//! are written in the Cram-like encoding
//!
//! ```txt
//! $ a-command \
//! > potential more lines
//! other lines are
//! all output
//! [exit code]
//! ```
use std::sync::Arc;
use vstd::prelude::*;

use crate::config::{spec_empty_config, TestCaseConfig, TestCaseConfigView};
use crate::expectation::{
    spec_parse_expectation_error,
    spec_parse_expectation, Expectation, ExpectationMaker, ExpectationView,
};
use crate::rules::{RuleError, RuleErrorView};
use crate::testcase::{expectations_view, TestCase, TestCaseView};
use crate::text::{
    chars_of, decimal_string, join_newline, spec_decimal, spec_join_newline, string_from_chars,
    strings_view,
};

verus! {

/// What a line of a test case body turned out to be.
#[derive(Debug, Clone, Copy, PartialEq, Eq, Structural)]
pub enum CodeType {
    /// The start of a shell expression (`$ ...`)
    CommandStart,
    /// The continuation of a shell expression (`> ...`)
    CommandContinue,
    /// An output expectation
    Expectation,
    /// The exit code (`[<code>]`)
    ExitCode,
}

/// Why a document could not be parsed. Lines are counted from one.
#[derive(Debug, Clone, PartialEq)]
pub enum ParseError {
    /// A continuation `> ...` without a shell expression before it
    ContinuationWithoutCommand { line: usize },
    /// A second exit code for the same test case
    MultipleExitCodes { line: usize },
    /// Output expectations without a shell expression
    OutputWithoutCommand { line: usize },
    /// A line that is no valid output expectation
    InvalidExpectation { line: usize, error: RuleError },
    /// A configuration that could not be read
    InvalidConfig { line: usize, message: String },
}

/// The abstract value of a [`ParseError`]: its kind, line and what it
/// carries.
pub enum ParseErrorView {
    ContinuationWithoutCommand(int),
    MultipleExitCodes(int),
    OutputWithoutCommand(int),
    InvalidExpectation(int, RuleErrorView),
    InvalidConfig(int, Seq<char>),
}

impl View for ParseError {
    type V = ParseErrorView;

    open spec fn view(&self) -> ParseErrorView {
        match self {
            ParseError::ContinuationWithoutCommand { line } => ParseErrorView::ContinuationWithoutCommand(
                *line as int,
            ),
            ParseError::MultipleExitCodes { line } => ParseErrorView::MultipleExitCodes(*line as int),
            ParseError::OutputWithoutCommand { line } => ParseErrorView::OutputWithoutCommand(
                *line as int,
            ),
            ParseError::InvalidExpectation { line, error } => ParseErrorView::InvalidExpectation(
                *line as int,
                error@,
            ),
            ParseError::InvalidConfig { line, message } => ParseErrorView::InvalidConfig(
                *line as int,
                message@,
            ),
        }
    }
}

/// The message of an error of the given kind on the given line.
pub open spec fn spec_error_message(e: ParseErrorView) -> Seq<char> {
    match e {
        ParseErrorView::ContinuationWithoutCommand(l) => "line "@ + spec_decimal(l as nat)
            + ": command extender '>' requires previous command start '$' which is not given"@,
        ParseErrorView::MultipleExitCodes(l) => "line "@ + spec_decimal(l as nat)
            + ": exit code provided multiple times"@,
        ParseErrorView::OutputWithoutCommand(l) => "line "@ + spec_decimal(l as nat)
            + ": testcase output expectation(s) given, but no shell expression specified"@,
        ParseErrorView::InvalidExpectation(l, _) => "parsing line "@ + spec_decimal(l as nat),
        ParseErrorView::InvalidConfig(l, _) => "parsing configuration on line "@ + spec_decimal(
            l as nat,
        ),
    }
}

impl ParseError {
    /// The human readable message of the error.
    pub fn to_string(&self) -> (r: String)
        ensures
            r@ == spec_error_message(self@),
    {
        match self {
            ParseError::ContinuationWithoutCommand { line } => {
                let mut s = "line ".to_owned();
                s.append(decimal_string(*line as u64).as_str());
                s.append(
                    ": command extender '>' requires previous command start '$' which is not given",
                );
                s
            },
            ParseError::MultipleExitCodes { line } => {
                let mut s = "line ".to_owned();
                s.append(decimal_string(*line as u64).as_str());
                s.append(": exit code provided multiple times");
                s
            },
            ParseError::OutputWithoutCommand { line } => {
                let mut s = "line ".to_owned();
                s.append(decimal_string(*line as u64).as_str());
                s.append(": testcase output expectation(s) given, but no shell expression specified");
                s
            },
            ParseError::InvalidExpectation { line, .. } => {
                let mut s = "parsing line ".to_owned();
                s.append(decimal_string(*line as u64).as_str());
                s
            },
            ParseError::InvalidConfig { line, .. } => {
                let mut s = "parsing configuration on line ".to_owned();
                s.append(decimal_string(*line as u64).as_str());
                s
            },
        }
    }
}

/// The value of a non-empty run of decimal digits.
pub open spec fn spec_digits_value(d: Seq<char>) -> nat
    decreases d.len(),
{
    if d.len() == 0 {
        0
    } else {
        spec_digits_value(d.drop_last()) * 10 + ((d.last() as nat) - 48) as nat
    }
}

/// Whether all characters are decimal digits.
pub open spec fn spec_all_digits(d: Seq<char>) -> bool {
    forall|i: int| 0 <= i < d.len() ==> '0' <= #[trigger] d[i] <= '9'
}

/// The exit code that a line of the form `[<digits>]` denotes, if the line
/// has that form and the number fits an `i32`.
pub open spec fn spec_exit_code(line: Seq<char>) -> Option<i32> {
    if line.len() >= 3 && line[0] == '[' && line.last() == ']' && spec_all_digits(
        line.subrange(1, line.len() - 1),
    ) && spec_digits_value(line.subrange(1, line.len() - 1)) <= i32::MAX {
        Some(spec_digits_value(line.subrange(1, line.len() - 1)) as i32)
    } else {
        None
    }
}

/// Parses a line of output for whether it denotes an exit code of the form
/// `[<numeric code>]` and returns the numeric value if it does.
pub fn extract_exit_code(line: &str) -> (r: Option<i32>)
    ensures
        r == spec_exit_code(line@),
{
    let cs = chars_of(line);
    let n = cs.len();
    if n < 3 || cs[0] != '[' || cs[n - 1] != ']' {
        return None;
    }
    let ghost digits = line@.subrange(1, n - 1);
    let mut value: u64 = 0;
    let mut i: usize = 1;
    while i < n - 1
        invariant
            cs@ == line@,
            n == cs@.len(),
            n >= 3,
            1 <= i <= n - 1,
            digits == line@.subrange(1, n - 1),
            spec_all_digits(line@.subrange(1, i as int)),
            value == spec_digits_value(line@.subrange(1, i as int)),
            value <= i32::MAX,
        decreases n - 1 - i,
    {
        let c = cs[i];
        if c < '0' || c > '9' {
            proof {
                assert(digits[i - 1] == c);
            }
            return None;
        }
        let ghost prefix = line@.subrange(1, i + 1);
        proof {
            assert(prefix.drop_last() == line@.subrange(1, i as int));
            assert(prefix.last() == c);
        }
        let d = (c as u32 - 48) as u64;
        let next = value * 10 + d;
        if next > 2147483647 {
            proof {
                assert(digits.take(i as int) == prefix);
                assert(spec_all_digits(prefix));
                assert(spec_digits_value(prefix) == next);
                lemma_digits_value_monotone(digits, i as int);
            }
            return None;
        }
        value = next;
        i = i + 1;
    }
    assert(line@.subrange(1, i as int) == digits);
    Some(value as i32)
}

/// A longer run of digits has at least the value of its prefix.
proof fn lemma_digits_value_monotone(d: Seq<char>, k: int)
    requires
        0 <= k <= d.len(),
        spec_all_digits(d.take(k)),
    ensures
        spec_all_digits(d) ==> spec_digits_value(d.take(k)) <= spec_digits_value(d),
    decreases d.len() - k,
{
    if k < d.len() && spec_all_digits(d) {
        assert(d.take(k + 1).drop_last() == d.take(k));
        lemma_digits_value_monotone(d, k + 1);
    } else if k == d.len() {
        assert(d.take(k) == d);
    }
}

/// Lines starting with `#` are comments.
pub open spec fn spec_is_comment(line: Seq<char>) -> bool {
    line.len() > 0 && line[0] == '#'
}

/// Whether the line is a comment, that is whether it starts with `#`.
pub fn is_comment(line: &str) -> (r: bool)
    ensures
        r == spec_is_comment(line@),
{
    let cs = chars_of(line);
    cs.len() > 0 && cs[0] == '#'
}

/// The abstract state of a [`LineParser`].
pub struct LineParserView {
    pub testcases: Seq<TestCaseView>,
    pub title: Option<Seq<char>>,
    pub command: Seq<Seq<char>>,
    pub exit_code: Option<i32>,
    pub expectations: Seq<ExpectationView>,
    pub in_command: bool,
    pub allow_multiple_commands: bool,
    pub output_start_index: Option<int>,
    pub config: Option<TestCaseConfigView>,
}

/// A parser state without any test case and without anything gathered.
pub open spec fn spec_new_parser(allow_multiple_commands: bool) -> LineParserView {
    LineParserView {
        testcases: Seq::empty(),
        title: None,
        command: Seq::empty(),
        exit_code: None,
        expectations: Seq::empty(),
        in_command: false,
        allow_multiple_commands,
        output_start_index: None,
        config: None,
    }
}

/// The state after the gathered parts of a test case are dropped.
pub open spec fn spec_flush(s: LineParserView) -> LineParserView {
    LineParserView {
        title: None,
        command: Seq::empty(),
        exit_code: None,
        expectations: Seq::empty(),
        output_start_index: None,
        config: None,
        ..s
    }
}

/// Whether a shell expression or expectations are gathered.
pub open spec fn spec_has_body(s: LineParserView) -> bool {
    s.command.len() > 0 || s.expectations.len() > 0
}

/// The test case that the gathered parts make, where the test case ends on
/// the line with the given index.
pub open spec fn spec_gathered_testcase(s: LineParserView, line_index: int) -> TestCaseView {
    TestCaseView {
        title: match s.title {
            Some(t) => t,
            None => Seq::empty(),
        },
        shell_expression: spec_join_newline(s.command),
        expectations: s.expectations,
        exit_code: s.exit_code,
        line_number: match s.output_start_index {
            Some(i) => i,
            None => line_index,
        } + 1,
        config: match s.config {
            Some(c) => c,
            None => spec_empty_config(),
        },
    }
}

/// Ending the test case on the line with the given index: without shell
/// expression nothing is added (an error if there are expectations),
/// otherwise the gathered test case is added and the gathered parts dropped.
pub open spec fn spec_end_testcase(s: LineParserView, line_index: int) -> (
    LineParserView,
    Option<ParseErrorView>,
) {
    if s.command.len() == 0 {
        if s.expectations.len() > 0 {
            (s, Some(ParseErrorView::OutputWithoutCommand(line_index + 1)))
        } else {
            (s, None)
        }
    } else {
        (
            spec_flush(
                LineParserView {
                    testcases: s.testcases.push(spec_gathered_testcase(s, line_index)),
                    ..s
                },
            ),
            None,
        )
    }
}

/// Adding a line of a test case body with the given index: a shell
/// expression start `$ ...` (where one is allowed: always when multiple
/// commands are allowed, else only before the first), a continuation
/// `> ...` right after a shell expression line, an exit code `[<code>]`, or
/// else an output expectation.
pub open spec fn spec_add_body(s: LineParserView, line: Seq<char>, index: int) -> (
    LineParserView,
    Result<CodeType, ParseErrorView>,
) {
    if (s.allow_multiple_commands || s.command.len() == 0) && line.len() >= 2 && line[0] == '$'
        && line[1] == ' ' {
        let s1 = LineParserView { in_command: true, ..s };
        let s2 = if s1.command.len() > 0 {
            spec_end_testcase(s1, index).0
        } else {
            s1
        };
        let s3 = if s2.output_start_index is None {
            LineParserView { output_start_index: Some(index), ..s2 }
        } else {
            s2
        };
        (LineParserView { command: s3.command.push(line.skip(2)), ..s3 }, Ok(CodeType::CommandStart))
    } else if s.in_command && line.len() >= 2 && line[0] == '>' && line[1] == ' ' {
        if s.command.len() == 0 {
            (s, Err(ParseErrorView::ContinuationWithoutCommand(index + 1)))
        } else {
            (
                LineParserView { command: s.command.push(line.skip(2)), ..s },
                Ok(CodeType::CommandContinue),
            )
        }
    } else {
        let s1 = LineParserView { in_command: false, ..s };
        match spec_exit_code(line) {
            Some(c) => if s1.exit_code is Some {
                (s1, Err(ParseErrorView::MultipleExitCodes(index + 1)))
            } else {
                (LineParserView { exit_code: Some(c), ..s1 }, Ok(CodeType::ExitCode))
            },
            None => match spec_parse_expectation(line) {
                Some(e) => (
                    LineParserView { expectations: s1.expectations.push(e), ..s1 },
                    Ok(CodeType::Expectation),
                ),
                None => (
                    s1,
                    Err(ParseErrorView::InvalidExpectation(index + 1, spec_parse_expectation_error(line))),
                ),
            },
        }
    }
}

/// A line by line engine for any test document syntax that writes the
/// bodies of test cases in the Cram-like encoding.
pub struct LineParser {
    /// The test cases that were gathered
    pub testcases: Vec<TestCase>,
    pub expectation_maker: Arc<ExpectationMaker>,
    pub title: Option<String>,
    pub command: Vec<String>,
    pub exit_code: Option<i32>,
    pub expectations: Vec<Expectation>,
    pub in_command: bool,
    pub allow_multiple_commands: bool,
    pub output_start_index: Option<usize>,
    pub config: Option<TestCaseConfig>,
}

/// The abstract values of a list of test cases.
pub open spec fn testcases_view(v: Seq<TestCase>) -> Seq<TestCaseView> {
    v.map_values(|t: TestCase| t@)
}

impl View for LineParser {
    type V = LineParserView;

    open spec fn view(&self) -> LineParserView {
        LineParserView {
            testcases: testcases_view(self.testcases@),
            title: match self.title {
                Some(t) => Some(t@),
                None => None,
            },
            command: strings_view(self.command@),
            exit_code: self.exit_code,
            expectations: expectations_view(self.expectations@),
            in_command: self.in_command,
            allow_multiple_commands: self.allow_multiple_commands,
            output_start_index: match self.output_start_index {
                Some(i) => Some(i as int),
                None => None,
            },
            config: match self.config {
                Some(c) => Some(c@),
                None => None,
            },
        }
    }
}

impl LineParser {
    /// Whether the recorded start of the test case leaves room for its line number.
    pub open spec fn wf(&self) -> bool {
        self.output_start_index matches Some(i) ==> i < usize::MAX
    }

    /// An engine without test cases; `allow_multiple_commands` says whether
    /// a test case body may hold several shell expressions, each of which
    /// starts a new test case.
    pub fn new(expectation_maker: Arc<ExpectationMaker>, allow_multiple_commands: bool) -> (r: Self)
        ensures
            r@ == spec_new_parser(allow_multiple_commands),
            r.wf(),
    {
        let r = LineParser {
            testcases: Vec::new(),
            expectation_maker,
            title: None,
            command: Vec::new(),
            exit_code: None,
            expectations: Vec::new(),
            in_command: false,
            allow_multiple_commands,
            output_start_index: None,
            config: None,
        };
        assert(r@.testcases =~= Seq::empty());
        assert(r@.command =~= Seq::empty());
        assert(r@.expectations =~= Seq::empty());
        r
    }

    /// Adds a line that is a shell expression, its continuation, an exit code
    /// or an output expectation.
    pub fn add_testcase_body(&mut self, line: &str, index: usize) -> (r: Result<CodeType, ParseError>)
        requires
            old(self).wf(),
            index < usize::MAX,
        ensures
            final(self).wf(),
            final(self)@ == spec_add_body(old(self)@, line@, index as int).0,
            match r {
                Ok(c) => spec_add_body(old(self)@, line@, index as int).1 == Ok::<
                    CodeType,
                    ParseErrorView,
                >(c),
                Err(e) => spec_add_body(old(self)@, line@, index as int).1 == Err::<
                    CodeType,
                    ParseErrorView,
                >(e@),
            },
    {
        let cs = chars_of(line);
        let n = cs.len();
        if (self.allow_multiple_commands || self.command.len() == 0) && n >= 2 && cs[0] == '$'
            && cs[1] == ' ' {
            let rest = string_from_chars(&cs.as_slice()[2..n]);
            assert(rest@ == line@.skip(2));
            self.in_command = true;
            if self.command.len() > 0 {
                let _ = self.end_testcase(index);
            }
            if self.output_start_index.is_none() {
                self.output_start_index = Some(index);
            }
            self.command.push(rest);
            proof {
                assert(strings_view(self.command@) =~= strings_view(old(self).command@.take(0))
                    + strings_view(self.command@));
            }
            assert(self@.command =~= spec_add_body(old(self)@, line@, index as int).0.command);
            return Ok(CodeType::CommandStart);
        }
        if self.in_command && n >= 2 && cs[0] == '>' && cs[1] == ' ' {
            if self.command.len() == 0 {
                return Err(ParseError::ContinuationWithoutCommand { line: index + 1 });
            }
            let rest = string_from_chars(&cs.as_slice()[2..n]);
            assert(rest@ == line@.skip(2));
            self.command.push(rest);
            assert(self@.command =~= old(self)@.command.push(line@.skip(2)));
            return Ok(CodeType::CommandContinue);
        }
        self.in_command = false;
        if let Some(exit_code) = extract_exit_code(line) {
            if self.exit_code.is_some() {
                return Err(ParseError::MultipleExitCodes { line: index + 1 });
            }
            self.exit_code = Some(exit_code);
            return Ok(CodeType::ExitCode);
        }
        match self.expectation_maker.parse(line) {
            Ok(e) => {
                self.expectations.push(e);
                assert(self@.expectations =~= old(self)@.expectations.push(e@));
                Ok(CodeType::Expectation)
            },
            Err(error) => Err(ParseError::InvalidExpectation { line: index + 1, error }),
        }
    }

    /// Sets the title of the test case that is gathered.
    pub fn set_testcase_title(&mut self, line: &str)
        ensures
            final(self)@ == (LineParserView { title: Some(line@), ..old(self)@ }),
            final(self).wf() == old(self).wf(),
    {
        self.title = Some(line.to_owned());
    }

    /// Sets the configuration of the test case that is gathered.
    pub fn set_testcase_config(&mut self, config: TestCaseConfig)
        ensures
            final(self)@ == (LineParserView { config: Some(config@), ..old(self)@ }),
            final(self).wf() == old(self).wf(),
    {
        self.config = Some(config);
    }

    /// Ends the test case that is gathered, on the line with the given
    /// index: the test case is added to the found ones and the gathered
    /// parts are dropped.
    pub fn end_testcase(&mut self, line_index: usize) -> (r: Result<(), ParseError>)
        requires
            old(self).wf(),
            line_index < usize::MAX,
        ensures
            final(self).wf(),
            final(self)@ == spec_end_testcase(old(self)@, line_index as int).0,
            match r {
                Ok(()) => spec_end_testcase(old(self)@, line_index as int).1 is None,
                Err(e) => spec_end_testcase(old(self)@, line_index as int).1 == Some(e@),
            },
    {
        if self.command.len() == 0 {
            if self.expectations.len() > 0 {
                return Err(ParseError::OutputWithoutCommand { line: line_index + 1 });
            }
            return Ok(());
        }
        let ghost s = self@;
        let title = match self.title.take() {
            Some(t) => t,
            None => String::new(),
        };
        let shell_expression = join_newline(&self.command);
        let start = match self.output_start_index {
            Some(i) => i,
            None => line_index,
        };
        let config = match self.config.take() {
            Some(c) => c,
            None => TestCaseConfig::empty(),
        };
        let mut expectations: Vec<Expectation> = Vec::new();
        std::mem::swap(&mut expectations, &mut self.expectations);
        let testcase = TestCase {
            title,
            shell_expression,
            expectations,
            exit_code: self.exit_code,
            line_number: start + 1,
            config,
        };
        assert(testcase@ == spec_gathered_testcase(s, line_index as int));
        self.testcases.push(testcase);
        assert(testcases_view(self.testcases@) =~= s.testcases.push(testcase@));
        self.flush();
        assert(self@.command =~= Seq::empty());
        assert(self@.expectations =~= Seq::empty());
        Ok(())
    }

    /// Whether a shell expression or expectations are gathered.
    pub fn has_testcase_body(&self) -> (r: bool)
        ensures
            r == spec_has_body(self@),
    {
        self.command.len() > 0 || self.expectations.len() > 0
    }

    fn flush(&mut self)
        ensures
            final(self).testcases == old(self).testcases,
            final(self).in_command == old(self).in_command,
            final(self).allow_multiple_commands == old(self).allow_multiple_commands,
            final(self).title is None,
            final(self).command@.len() == 0,
            final(self).exit_code is None,
            final(self).expectations@.len() == 0,
            final(self).output_start_index is None,
            final(self).config is None,
    {
        self.title = None;
        self.command = Vec::new();
        self.expectations = Vec::new();
        self.exit_code = None;
        self.output_start_index = None;
        self.config = None;
    }
}

} // verus!

//! Parsing of Cram documents, whose test cases are written as a title line
//! followed by an indented body:
//!
//! ```cram
//! A title
//!   $ command
//!   expectation
//! ```
use std::sync::Arc;
use vstd::prelude::*;

use crate::config::{spec_cram_config, DocumentConfig, TestCaseConfig};
use crate::expectation::ExpectationMaker;
use crate::parsers::line_parser::{
    is_comment, spec_add_body, spec_end_testcase, spec_has_body, spec_is_comment,
    spec_new_parser, testcases_view, LineParser, LineParserView, ParseError, ParseErrorView,
};
use crate::testcase::TestCase;
use crate::text::{chars_of, spec_str_lines, str_lines, string_from_chars, strings_view};

verus! {

/// The indention of test case bodies in Cram documents, unless configured otherwise.
pub const DEFAULT_CRAM_INDENTION: usize = 2;

/// Whether the line starts with the given number of spaces.
pub open spec fn spec_is_indented(line: Seq<char>, indention: nat) -> bool {
    line.len() >= indention && forall|i: int| 0 <= i < indention ==> #[trigger] line[i] == ' '
}

/// The effect of one line of a Cram document on the parser state: comments
/// are ignored, an empty line ends a test case that has a body, an indented
/// line is part of a test case body, and any other line ends the test case
/// and is the title of the next one.
pub open spec fn spec_cram_step(s: LineParserView, line: Seq<char>, index: int, indention: nat) -> (
    LineParserView,
    Option<ParseErrorView>,
) {
    if spec_is_comment(line) {
        (s, None)
    } else if line.len() == 0 {
        if spec_has_body(s) {
            spec_end_testcase(s, index)
        } else {
            (s, None)
        }
    } else if spec_is_indented(line, indention) {
        let s1 = LineParserView { config: Some(spec_cram_config()), ..s };
        let (s2, r) = spec_add_body(s1, line.skip(indention as int), index);
        (
            s2,
            match r {
                Ok(_) => None,
                Err(e) => Some(e),
            },
        )
    } else {
        let (s1, e) = spec_end_testcase(s, index);
        if e is Some {
            (s1, e)
        } else {
            (LineParserView { title: Some(line), ..s1 }, None)
        }
    }
}

/// The parser state after the lines from index `i` on, and after a last
/// test case that has a body is ended; or the first error.
pub open spec fn spec_cram_from(
    s: LineParserView,
    lines: Seq<Seq<char>>,
    i: int,
    indention: nat,
) -> Result<LineParserView, ParseErrorView>
    decreases lines.len() - i,
{
    if i >= lines.len() {
        if spec_has_body(s) {
            let s1 = LineParserView { config: Some(spec_cram_config()), ..s };
            let (s2, e) = spec_end_testcase(s1, lines.len() as int);
            match e {
                Some(x) => Err(x),
                None => Ok(s2),
            }
        } else {
            Ok(s)
        }
    } else {
        let (s1, e) = spec_cram_step(s, lines[i], i, indention);
        match e {
            Some(x) => Err(x),
            None => spec_cram_from(s1, lines, i + 1, indention),
        }
    }
}

/// The result of parsing a Cram document: the parser state at the end, or
/// the first error.
pub open spec fn spec_cram_parse(text: Seq<char>, indention: nat) -> Result<
    LineParserView,
    ParseErrorView,
> {
    spec_cram_from(spec_new_parser(true), spec_str_lines(text), 0, indention)
}

/// A text has at most as many lines as characters.
pub proof fn lemma_str_lines_len(s: Seq<char>)
    ensures
        spec_str_lines(s).len() <= s.len(),
    decreases s.len(),
{
    if s.len() > 0 {
        crate::text::lemma_find_char_bounds(s, '\n', 0);
        match crate::text::spec_find_char(s, '\n', 0) {
            Some(p) => {
                lemma_str_lines_len(s.skip(p + 1));
            },
            None => {},
        }
    }
}

/// A parser for Cram documents.
pub struct CramParser {
    pub expectation_maker: Arc<ExpectationMaker>,
    pub indention: usize,
}

impl CramParser {
    /// A parser for test case bodies that are indented by the given number of spaces.
    pub fn new(expectation_maker: Arc<ExpectationMaker>, indention: usize) -> (r: Self)
        ensures
            r.indention == indention,
    {
        CramParser { expectation_maker, indention }
    }

    /// A parser for test case bodies that are indented by two spaces.
    pub fn default_new(expectation_maker: Arc<ExpectationMaker>) -> (r: Self)
        ensures
            r.indention == DEFAULT_CRAM_INDENTION,
    {
        Self::new(expectation_maker, DEFAULT_CRAM_INDENTION)
    }

    /// Parses the test cases of a Cram document. Cram documents carry no
    /// document configuration, so the one returned is empty.
    pub fn parse(&self, text: &str) -> (r: Result<(DocumentConfig, Vec<TestCase>), ParseError>)
        requires
            text@.len() < usize::MAX,
        ensures
            match r {
                Ok((config, testcases)) => config.spec_is_empty() && (spec_cram_parse(
                    text@,
                    self.indention as nat,
                ) matches Ok(s) && s.testcases == testcases_view(testcases@)),
                Err(e) => spec_cram_parse(text@, self.indention as nat) == Err::<
                    LineParserView,
                    ParseErrorView,
                >(e@),
            },
    {
        let mut engine = LineParser::new(self.expectation_maker.clone(), true);
        let lines = str_lines(text);
        proof {
            lemma_str_lines_len(text@);
        }
        let ghost lv = strings_view(lines@);
        let n = lines.len();
        let mut index: usize = 0;
        while index < n
            invariant
                n == lines@.len(),
                lv == strings_view(lines@),
                lv == spec_str_lines(text@),
                n < usize::MAX,
                index <= n,
                engine.wf(),
                spec_cram_from(engine@, lv, index as int, self.indention as nat) == spec_cram_parse(
                    text@,
                    self.indention as nat,
                ),
            decreases n - index,
        {
            let line = lines[index].as_str();
            assert(line@ == lv[index as int]);
            if is_comment(line) {
                index = index + 1;
                continue;
            }
            let cs = chars_of(line);
            if cs.len() == 0 {
                if engine.has_testcase_body() {
                    engine.end_testcase(index)?;
                }
                index = index + 1;
                continue;
            }
            if self.is_indented(cs.as_slice()) {
                let rest = string_from_chars(&cs.as_slice()[self.indention..cs.len()]);
                assert(rest@ == line@.skip(self.indention as int));
                engine.set_testcase_config(TestCaseConfig::default_cram());
                engine.add_testcase_body(rest.as_str(), index)?;
                index = index + 1;
                continue;
            }
            engine.end_testcase(index)?;
            engine.set_testcase_title(line);
            index = index + 1;
        }
        if engine.has_testcase_body() {
            engine.set_testcase_config(TestCaseConfig::default_cram());
            engine.end_testcase(n)?;
        }
        Ok((DocumentConfig::empty(), engine.testcases))
    }

    fn is_indented(&self, line: &[char]) -> (r: bool)
        ensures
            r == spec_is_indented(line@, self.indention as nat),
    {
        if line.len() < self.indention {
            return false;
        }
        let mut i: usize = 0;
        while i < self.indention
            invariant
                i <= self.indention <= line@.len(),
                forall|j: int| 0 <= j < i ==> line@[j] == ' ',
            decreases self.indention - i,
        {
            if line[i] != ' ' {
                return false;
            }
            i = i + 1;
        }
        true
    }
}

} // verus!

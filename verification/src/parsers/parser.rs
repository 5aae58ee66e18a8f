//! The syntaxes of test documents, and what a parser of one offers.
use vstd::prelude::*;

use crate::config::DocumentConfig;
use crate::parsers::cram::{spec_cram_parse, CramParser};
use crate::parsers::line_parser::{testcases_view, LineParserView, ParseError, ParseErrorView};
use crate::testcase::TestCase;

verus! {

/// Extracts the document configuration and the test cases from a text in
/// the syntax of the implementation.
pub trait Parser {
    /// Whether the text can be parsed.
    spec fn spec_parse_allowed(&self, text: Seq<char>) -> bool;

    /// Whether `r` is the result of parsing the text.
    spec fn spec_parsed(&self, text: Seq<char>, r: Result<(DocumentConfig, Vec<TestCase>), ParseError>) -> bool;

    /// Parses the text.
    fn parse(&self, text: &str) -> (r: Result<(DocumentConfig, Vec<TestCase>), ParseError>)
        requires
            self.spec_parse_allowed(text@),
        ensures
            self.spec_parsed(text@, r),
    ;
}

impl Parser for CramParser {
    open spec fn spec_parse_allowed(&self, text: Seq<char>) -> bool {
        text.len() < usize::MAX
    }

    open spec fn spec_parsed(&self, text: Seq<char>, r: Result<(DocumentConfig, Vec<TestCase>), ParseError>) -> bool {
        match r {
            Ok((config, testcases)) => config.spec_is_empty() && (spec_cram_parse(
                text,
                self.indention as nat,
            ) matches Ok(s) && s.testcases == testcases_view(testcases@)),
            Err(e) => spec_cram_parse(text, self.indention as nat) == Err::<LineParserView, ParseErrorView>(
                e@,
            ),
        }
    }

    fn parse(&self, text: &str) -> (r: Result<(DocumentConfig, Vec<TestCase>), ParseError>) {
        CramParser::parse(self, text)
    }
}

/// The syntax of a test document.
#[derive(Debug, Clone, Copy, PartialEq, Eq, Structural)]
pub enum ParserType {
    Markdown,
    Cram,
}

impl ParserType {
    /// The file name extension of documents in this syntax.
    pub fn file_extension(&self) -> (r: &'static str)
        ensures
            r@ == match self {
                ParserType::Cram => "t"@,
                ParserType::Markdown => "md"@,
            },
    {
        match self {
            ParserType::Cram => "t",
            ParserType::Markdown => "md",
        }
    }

    /// The name of the syntax.
    pub fn name(&self) -> (r: &'static str)
        ensures
            r@ == match self {
                ParserType::Cram => "cram"@,
                ParserType::Markdown => "markdown"@,
            },
    {
        match self {
            ParserType::Cram => "cram",
            ParserType::Markdown => "markdown",
        }
    }
}

} // verus!

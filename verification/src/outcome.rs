//! The aggregate of all that renderers and generators need to know about
//! one executed test case.
use vstd::prelude::*;

use crate::escaping::Escaper;
use crate::output::Output;
use crate::parsers::parser::ParserType;
use crate::testcase::{TestCase, TestCaseError};

verus! {

/// One executed test case: where it is from, what it printed, and the
/// result of validating the output.
#[derive(Debug)]
pub struct Outcome {
    /// The path or URL of the test document
    pub location: Option<String>,
    /// The output of the execution
    pub output: Output,
    /// The test case
    pub testcase: TestCase,
    /// The syntax the test case was written in
    pub format: ParserType,
    /// How output is escaped
    pub escaping: Escaper,
    /// The result of validating the output
    pub result: Result<(), TestCaseError>,
}

} // verus!

//! What the generators of each document syntax offer: updating a document
//! so that its test cases expect the output that was printed, and writing a
//! new document from outcomes.
use vstd::prelude::*;

use crate::generators::cram::{spec_cram_document, CramTestCaseGenerator, CramUpdateGenerator};
use crate::generators::markdown::{spec_update_from, MarkdownUpdateGenerator};
use crate::outcome::Outcome;
use crate::parsers::markdown::{spec_blocks_from, spec_markdown_tokens};
use crate::text::strings_view;

verus! {

/// Takes a whole test document in the syntax of the implementation and
/// returns it updated: its test cases expect the output of the outcomes.
pub trait UpdateGenerator {
    /// Whether the document can be updated from the outcomes.
    spec fn spec_update_allowed(&self, original_document: Seq<char>, outcomes: Seq<Outcome>) -> bool;

    /// The updated document, or why it cannot be made.
    spec fn spec_update(&self, original_document: Seq<char>, outcomes: Seq<Outcome>) -> Result<
        Seq<char>,
        Seq<char>,
    >;

    /// Updates the document from the outcomes.
    fn generate_update(&self, original_document: &str, outcomes: &[Outcome]) -> (r: Result<
        String,
        String,
    >)
        requires
            self.spec_update_allowed(original_document@, outcomes@),
        ensures
            match r {
                Ok(s) => self.spec_update(original_document@, outcomes@) == Ok::<
                    Seq<char>,
                    Seq<char>,
                >(s@),
                Err(e) => self.spec_update(original_document@, outcomes@) == Err::<
                    Seq<char>,
                    Seq<char>,
                >(e@),
            },
    ;
}

/// Renders the test cases of outcomes as a new document in the syntax of
/// the implementation.
pub trait TestCaseGenerator {
    /// The new document, or why it cannot be made.
    spec fn spec_document(&self, outcomes: Seq<Outcome>) -> Result<Seq<char>, Seq<char>>;

    /// Writes the document of the outcomes.
    fn generate_testcases(&self, outcomes: &[Outcome]) -> (r: Result<String, String>)
        ensures
            match r {
                Ok(s) => self.spec_document(outcomes@) == Ok::<Seq<char>, Seq<char>>(s@),
                Err(e) => self.spec_document(outcomes@) == Err::<Seq<char>, Seq<char>>(e@),
            },
    ;
}

impl UpdateGenerator for CramUpdateGenerator {
    open spec fn spec_update_allowed(&self, original_document: Seq<char>, outcomes: Seq<Outcome>) -> bool {
        true
    }

    open spec fn spec_update(&self, original_document: Seq<char>, outcomes: Seq<Outcome>) -> Result<
        Seq<char>,
        Seq<char>,
    > {
        if outcomes.len() == 0 {
            Ok(original_document)
        } else {
            spec_cram_document(self.indention as nat, outcomes)
        }
    }

    fn generate_update(&self, original_document: &str, outcomes: &[Outcome]) -> (r: Result<
        String,
        String,
    >) {
        CramUpdateGenerator::generate_update(self, original_document, outcomes)
    }
}

impl UpdateGenerator for MarkdownUpdateGenerator {
    open spec fn spec_update_allowed(&self, original_document: Seq<char>, outcomes: Seq<Outcome>) -> bool {
        outcomes.len() == 0 || spec_blocks_from(
            spec_markdown_tokens(strings_view(self.0@), original_document),
            0,
        ) <= outcomes.len()
    }

    open spec fn spec_update(&self, original_document: Seq<char>, outcomes: Seq<Outcome>) -> Result<
        Seq<char>,
        Seq<char>,
    > {
        if outcomes.len() == 0 {
            Ok(original_document)
        } else {
            spec_update_from(
                spec_markdown_tokens(strings_view(self.0@), original_document),
                0,
                0,
                outcomes,
            )
        }
    }

    fn generate_update(&self, original_document: &str, outcomes: &[Outcome]) -> (r: Result<
        String,
        String,
    >) {
        MarkdownUpdateGenerator::generate_update(self, original_document, outcomes)
    }
}

impl TestCaseGenerator for CramTestCaseGenerator {
    open spec fn spec_document(&self, outcomes: Seq<Outcome>) -> Result<Seq<char>, Seq<char>> {
        spec_cram_document(self.indention as nat, outcomes)
    }

    fn generate_testcases(&self, outcomes: &[Outcome]) -> (r: Result<String, String>) {
        CramTestCaseGenerator::generate_testcases(self, outcomes)
    }
}

} // verus!

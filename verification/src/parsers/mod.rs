//! Parsing of test documents into test cases, and the rejection of
//! malformed documents. Two syntaxes are supported: Markdown documents
//! ([`markdown::MarkdownParser`]) and Cram documents ([`cram::CramParser`]).

pub mod cram;
pub mod cram_laws;
pub mod line_parser;
pub mod markdown;
pub mod parser;

//! Command line application testing: the parsing, matching, escaping and
//! rendering logic behind Scrut test documents.

pub mod text;
pub mod newline;
pub mod escaping;
pub mod rules;
pub mod expectation;
pub mod diff;
pub mod diff_laws;
pub mod rendering_laws;
pub mod output;
pub mod config;
pub mod testcase;
pub mod parsers;
pub mod outcome;
pub mod generators;
pub mod interpolation;
pub mod executors;
pub mod nameutil;
pub mod debug;
pub mod validation;
pub mod environment;

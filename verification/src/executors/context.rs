//! The environment in which the test cases of a document are executed.
use vstd::prelude::*;

use crate::config::DocumentConfig;

verus! {

/// Where and with which configuration the test cases of one document run.
#[derive(Debug, Clone, PartialEq, Eq)]
pub struct Context {
    /// The directory the executions run in
    pub work_directory: String,
    /// The directory for temporary files
    pub temp_directory: String,
    /// The path of the test document
    pub file: String,
    /// The configuration of the document
    pub config: DocumentConfig,
}

impl Context {
    /// A context of the given directories, document and configuration.
    pub fn new(work_directory: &str, temp_directory: &str, file: &str, config: DocumentConfig) -> (r: Self)
        ensures
            r.work_directory@ == work_directory@,
            r.temp_directory@ == temp_directory@,
            r.file@ == file@,
            r.config == config,
    {
        Context {
            work_directory: work_directory.to_owned(),
            temp_directory: temp_directory.to_owned(),
            file: file.to_owned(),
            config,
        }
    }
}

} // verus!

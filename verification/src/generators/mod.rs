//! Generation of test documents: new documents from executed shell
//! expressions, and updated documents whose test cases expect the output
//! that was actually printed.

pub mod cram;
pub mod cram_laws;
pub mod generator;
pub mod markdown;
pub mod outcome;

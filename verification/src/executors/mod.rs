//! Execution of the shell expressions of test cases. The library holds the
//! parts that decide: how a script of several test cases is written, how
//! its output is divided among the test cases, and what the outcome of an
//! execution means. Running processes is left to the application.

pub mod divider;
pub mod error;
pub mod execution;
pub mod bash_runner;
pub mod context;
pub mod protocol_laws;
pub mod bash_script_executor;
pub mod sequential_executor;
pub mod stateful_executor;

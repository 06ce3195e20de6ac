//! A sandboxed code-execution and benchmarking library: it synthesizes an
//! instrumented program around a user-supplied snippet, plans its execution
//! inside an isolated container, and parses the captured text into a
//! structured pass/fail report with aggregate metrics.
pub mod codegen;
pub mod config;
pub mod complexity;
pub mod digits;
pub mod executor;
pub mod laws;
pub mod model;
pub mod parser;
pub mod text;

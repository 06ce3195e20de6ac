//! The request model: positional integer test cases around a user snippet.
use vstd::prelude::*;

verus! {

/// One test case: ordered integer inputs, passed positionally to the entry
/// function, and the single expected integer output.
pub struct TestCase {
    pub input: Vec<i32>,
    pub expected: i32,
}

/// One execution request: a language tag, a source snippet, the entry-function
/// name, and the ordered test cases.
pub struct CodeRequest {
    pub language: String,
    pub code: String,
    pub function: String,
    pub test_cases: Vec<TestCase>,
}

} // verus!

//! Template synthesis: each supported language has a generator that wraps the
//! user snippet in an instrumented harness emitting the fixed textual
//! protocol. Generation is pure text construction.
pub mod c_generator;
pub mod cpp_generator;
pub mod python_generator;

use vstd::prelude::*;
use crate::digits::{spec_int_str, int_to_string};
use crate::model::TestCase;

verus! {

use vstd::string::StringExecFns;

/// A code generator turns (snippet, entry function, test cases) into one
/// self-contained program text; which text is fixed by `spec_generate`.
pub trait CodeGenerator {
    /// The exact program text this generator produces.
    spec fn spec_generate(&self, code: Seq<char>, function: Seq<char>, cases: Seq<TestCase>) -> Seq<
        char,
    >;

    /// Deterministic, side-effect-free synthesis of the instrumented program.
    fn generate(&self, code: &str, function: &str, test_cases: &Vec<TestCase>) -> (r: String)
        ensures
            r@ == self.spec_generate(code@, function@, test_cases@),
    ;
}

/// The comma-separated argument list a harness passes positionally:
/// `"2, 3"`, or empty for a zero-argument call.
pub open spec fn spec_args_join(xs: Seq<i32>) -> Seq<char>
    decreases xs.len(),
{
    if xs.len() == 0 {
        Seq::empty()
    } else if xs.len() == 1 {
        spec_int_str(xs[0] as int)
    } else {
        spec_args_join(xs.drop_last()) + ", "@ + spec_int_str(xs.last() as int)
    }
}

/// Renders the argument list of one test case.
#[verifier::loop_isolation(false)]
pub fn args_join(xs: &Vec<i32>) -> (r: String)
    ensures
        r@ == spec_args_join(xs@),
{
    let mut r = String::new();
    let n = xs.len();
    let mut i: usize = 0;
    while i < n
        invariant
            0 <= i <= n,
            n == xs@.len(),
            r@ == spec_args_join(xs@.take(i as int)),
        decreases n - i,
    {
        if i > 0 {
            r.append(", ");
        }
        let piece = int_to_string(xs[i] as i64);
        r.append(piece.as_str());
        proof {
            let cur = xs@.take(i + 1);
            assert(cur.drop_last() =~= xs@.take(i as int));
            assert(cur.last() == xs@[i as int]);
            if i == 0 {
                assert(cur[0] == xs@[0]);
                assert(r@ =~= spec_args_join(cur));
            } else {
                assert(r@ =~= spec_args_join(cur));
            }
        }
        i = i + 1;
    }
    proof {
        assert(xs@.take(n as int) =~= xs@);
    }
    r
}

} // verus!

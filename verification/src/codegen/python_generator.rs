//! The Python harness generator.
use vstd::prelude::*;
use crate::codegen::{CodeGenerator, spec_args_join, args_join};
use crate::digits::{spec_int_str, int_to_string};
use crate::model::TestCase;

verus! {

use vstd::string::StringExecFns;

pub struct PythonCodeGenerator;

/// The instrumented block for one test case of the Python harness.
pub open spec fn python_case_block(function: Seq<char>, t: TestCase) -> Seq<char> {
    let args = spec_args_join(t.input@);
    let exp = spec_int_str(t.expected as int);
    "    start = time.time()\n    result = "@ + function + "("@ + args
        + ")\n    end = time.time()\n    time_ms = (end - start) * 1000\n    status = '\u{2705} PASS' if result == "@
        + exp + " else '\u{274c} FAIL'\n    print(f\"Input: ("@ + args
        + ") => Output: {result} | Expected: "@ + exp
        + " | {status} | Time: {time_ms:.3f}ms\")\n\n"@
}

pub open spec fn python_case_blocks(function: Seq<char>, cases: Seq<TestCase>) -> Seq<char>
    decreases cases.len(),
{
    if cases.len() == 0 {
        Seq::empty()
    } else {
        python_case_blocks(function, cases.drop_last()) + python_case_block(function, cases.last())
    }
}

/// The whole Python program: imports, the snippet verbatim, a peak-memory
/// helper, then one instrumented block per case and the aggregate banner
/// lines (the memory line reports the end-minus-start delta in KB).
pub open spec fn python_program(code: Seq<char>, function: Seq<char>, cases: Seq<TestCase>) -> Seq<
    char,
> {
    "import time\nimport resource\n\n"@ + code
        + "\n\ndef get_memory_kb():\n    return resource.getrusage(resource.RUSAGE_SELF).ru_maxrss\n\nif __name__ == '__main__':\n    program_start = time.time()\n    start_mem = get_memory_kb()\n\n"@
        + python_case_blocks(function, cases)
        + "    program_end = time.time()\n    end_mem = get_memory_kb()\n    total_time = (program_end - program_start) * 1000\n    print(\"\\n=== Performance ===\")\n    print(f\"Time: {total_time:.3f}ms\")\n    print(f\"Memory: {end_mem - start_mem} KB\")\n"@
}

impl CodeGenerator for PythonCodeGenerator {
    open spec fn spec_generate(
        &self,
        code: Seq<char>,
        function: Seq<char>,
        cases: Seq<TestCase>,
    ) -> Seq<char> {
        python_program(code, function, cases)
    }

    #[verifier::loop_isolation(false)]
    fn generate(&self, code: &str, function: &str, test_cases: &Vec<TestCase>) -> (r: String) {
        let mut full = String::new();
        full.append("import time\nimport resource\n\n");
        full.append(code);
        full.append(
            "\n\ndef get_memory_kb():\n    return resource.getrusage(resource.RUSAGE_SELF).ru_maxrss\n\nif __name__ == '__main__':\n    program_start = time.time()\n    start_mem = get_memory_kb()\n\n",
        );
        let ghost pro = full@;
        let n = test_cases.len();
        let mut i: usize = 0;
        while i < n
            invariant
                0 <= i <= n,
                n == test_cases@.len(),
                full@ == pro + python_case_blocks(function@, test_cases@.take(i as int)),
            decreases n - i,
        {
            let t = &test_cases[i];
            let args = args_join(&t.input);
            let exp = int_to_string(t.expected as i64);
            full.append("    start = time.time()\n    result = ");
            full.append(function);
            full.append("(");
            full.append(args.as_str());
            full.append(
                ")\n    end = time.time()\n    time_ms = (end - start) * 1000\n    status = '\u{2705} PASS' if result == ",
            );
            full.append(exp.as_str());
            full.append(" else '\u{274c} FAIL'\n    print(f\"Input: (");
            full.append(args.as_str());
            full.append(") => Output: {result} | Expected: ");
            full.append(exp.as_str());
            full.append(" | {status} | Time: {time_ms:.3f}ms\")\n\n");
            proof {
                let cur = test_cases@.take(i + 1);
                assert(cur.drop_last() =~= test_cases@.take(i as int));
                assert(cur.last() == test_cases@[i as int]);
                assert(full@ =~= pro + python_case_blocks(function@, cur));
            }
            i = i + 1;
        }
        proof {
            assert(test_cases@.take(n as int) =~= test_cases@);
        }
        full.append(
            "    program_end = time.time()\n    end_mem = get_memory_kb()\n    total_time = (program_end - program_start) * 1000\n    print(\"\\n=== Performance ===\")\n    print(f\"Time: {total_time:.3f}ms\")\n    print(f\"Memory: {end_mem - start_mem} KB\")\n",
        );
        proof {
            assert(full@ =~= python_program(code@, function@, test_cases@));
        }
        full
    }
}

} // verus!

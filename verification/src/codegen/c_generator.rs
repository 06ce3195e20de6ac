//! The C harness generator.
use vstd::prelude::*;
use crate::codegen::{CodeGenerator, spec_args_join, args_join};
use crate::digits::{spec_int_str, int_to_string};
use crate::model::TestCase;

verus! {

use vstd::string::StringExecFns;

pub struct CCodeGenerator;

/// The instrumented block for one test case of the C harness.
pub open spec fn c_case_block(function: Seq<char>, t: TestCase) -> Seq<char> {
    let args = spec_args_join(t.input@);
    let exp = spec_int_str(t.expected as int);
    "    {\n        double start = now_ms();\n        int result = "@ + function + "("@ + args
        + ");\n        double end = now_ms();\n        double time_ms = end - start;\n        printf(\"Input: ("@
        + args + ") => Output: %d | Expected: "@ + exp
        + " | %s | Time: %.3fms\\n\", result, result == "@ + exp
        + " ? \"\u{2705} PASS\" : \"\u{274c} FAIL\", time_ms);\n    }\n\n"@
}

pub open spec fn c_case_blocks(function: Seq<char>, cases: Seq<TestCase>) -> Seq<char>
    decreases cases.len(),
{
    if cases.len() == 0 {
        Seq::empty()
    } else {
        c_case_blocks(function, cases.drop_last()) + c_case_block(function, cases.last())
    }
}

/// The whole C program: headers, the snippet verbatim, a peak-memory helper
/// and a monotonic wall-clock helper, then one instrumented block per case
/// and the aggregate banner lines (the memory line reports the
/// end-minus-start delta in KB).
pub open spec fn c_program(code: Seq<char>, function: Seq<char>, cases: Seq<TestCase>) -> Seq<
    char,
> {
    "#include <stdio.h>\n#include <time.h>\n#include <sys/resource.h>\n\n"@ + code
        + "\n\nlong get_memory_kb() {\n    struct rusage usage;\n    getrusage(RUSAGE_SELF, &usage);\n    return usage.ru_maxrss;\n}\n\ndouble now_ms() {\n    struct timespec ts;\n    clock_gettime(CLOCK_MONOTONIC, &ts);\n    return ts.tv_sec * 1000.0 + ts.tv_nsec / 1000000.0;\n}\n\nint main() {\n    double program_start = now_ms();\n    long start_mem = get_memory_kb();\n\n"@
        + c_case_blocks(function, cases)
        + "    double program_end = now_ms();\n    long end_mem = get_memory_kb();\n    double total_time = program_end - program_start;\n    printf(\"\\n=== Performance ===\\n\");\n    printf(\"Time: %.3fms\\n\", total_time);\n    printf(\"Memory: %ld KB\\n\", end_mem - start_mem);\n    return 0;\n}"@
}

impl CodeGenerator for CCodeGenerator {
    open spec fn spec_generate(
        &self,
        code: Seq<char>,
        function: Seq<char>,
        cases: Seq<TestCase>,
    ) -> Seq<char> {
        c_program(code, function, cases)
    }

    #[verifier::loop_isolation(false)]
    fn generate(&self, code: &str, function: &str, test_cases: &Vec<TestCase>) -> (r: String) {
        let mut full = String::new();
        full.append("#include <stdio.h>\n#include <time.h>\n#include <sys/resource.h>\n\n");
        full.append(code);
        full.append(
            "\n\nlong get_memory_kb() {\n    struct rusage usage;\n    getrusage(RUSAGE_SELF, &usage);\n    return usage.ru_maxrss;\n}\n\ndouble now_ms() {\n    struct timespec ts;\n    clock_gettime(CLOCK_MONOTONIC, &ts);\n    return ts.tv_sec * 1000.0 + ts.tv_nsec / 1000000.0;\n}\n\nint main() {\n    double program_start = now_ms();\n    long start_mem = get_memory_kb();\n\n",
        );
        let ghost pro = full@;
        let n = test_cases.len();
        let mut i: usize = 0;
        while i < n
            invariant
                0 <= i <= n,
                n == test_cases@.len(),
                full@ == pro + c_case_blocks(function@, test_cases@.take(i as int)),
            decreases n - i,
        {
            let t = &test_cases[i];
            let args = args_join(&t.input);
            let exp = int_to_string(t.expected as i64);
            full.append("    {\n        double start = now_ms();\n        int result = ");
            full.append(function);
            full.append("(");
            full.append(args.as_str());
            full.append(
                ");\n        double end = now_ms();\n        double time_ms = end - start;\n        printf(\"Input: (",
            );
            full.append(args.as_str());
            full.append(") => Output: %d | Expected: ");
            full.append(exp.as_str());
            full.append(" | %s | Time: %.3fms\\n\", result, result == ");
            full.append(exp.as_str());
            full.append(" ? \"\u{2705} PASS\" : \"\u{274c} FAIL\", time_ms);\n    }\n\n");
            proof {
                let cur = test_cases@.take(i + 1);
                assert(cur.drop_last() =~= test_cases@.take(i as int));
                assert(cur.last() == test_cases@[i as int]);
                assert(full@ =~= pro + c_case_blocks(function@, cur));
            }
            i = i + 1;
        }
        proof {
            assert(test_cases@.take(n as int) =~= test_cases@);
        }
        full.append(
            "    double program_end = now_ms();\n    long end_mem = get_memory_kb();\n    double total_time = program_end - program_start;\n    printf(\"\\n=== Performance ===\\n\");\n    printf(\"Time: %.3fms\\n\", total_time);\n    printf(\"Memory: %ld KB\\n\", end_mem - start_mem);\n    return 0;\n}",
        );
        proof {
            assert(full@ =~= c_program(code@, function@, test_cases@));
        }
        full
    }
}

} // verus!

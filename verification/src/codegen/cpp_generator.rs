//! The C++ harness generator.
use vstd::prelude::*;
use crate::codegen::{CodeGenerator, spec_args_join, args_join};
use crate::digits::{spec_int_str, int_to_string};
use crate::model::TestCase;

verus! {

use vstd::string::StringExecFns;

pub struct CppCodeGenerator;

/// The instrumented block for one test case of the C++ harness; the case
/// time is streamed with fixed three-decimal precision.
pub open spec fn cpp_case_block(function: Seq<char>, t: TestCase) -> Seq<char> {
    let args = spec_args_join(t.input@);
    let exp = spec_int_str(t.expected as int);
    "    {\n        auto start = steady_clock::now();\n        int result = "@ + function + "("@
        + args
        + ");\n        auto end = steady_clock::now();\n        double time_ms = duration_cast<microseconds>(end - start).count() / 1000.0;\n        cout << \"Input: ("@
        + args + ") => Output: \" << result << \" | Expected: "@ + exp + " | \" << (result == "@
        + exp
        + " ? \"\u{2705} PASS\" : \"\u{274c} FAIL\") << \" | Time: \" << fixed << setprecision(3) << time_ms << \"ms\" << endl;\n    }\n\n"@
}

pub open spec fn cpp_case_blocks(function: Seq<char>, cases: Seq<TestCase>) -> Seq<char>
    decreases cases.len(),
{
    if cases.len() == 0 {
        Seq::empty()
    } else {
        cpp_case_blocks(function, cases.drop_last()) + cpp_case_block(function, cases.last())
    }
}

/// The whole C++ program: headers, the snippet verbatim, a peak-memory
/// helper, then one instrumented block per case and the aggregate banner
/// lines (the memory line reports the end-minus-start delta in KB).
pub open spec fn cpp_program(code: Seq<char>, function: Seq<char>, cases: Seq<TestCase>) -> Seq<
    char,
> {
    "#include <iostream>\n#include <chrono>\n#include <iomanip>\n#include <sys/resource.h>\nusing namespace std;\nusing namespace std::chrono;\n\n"@
        + code
        + "\n\nlong get_memory_kb() {\n    struct rusage usage;\n    getrusage(RUSAGE_SELF, &usage);\n    return usage.ru_maxrss;\n}\n\nint main() {\n    auto program_start = steady_clock::now();\n    long start_mem = get_memory_kb();\n\n"@
        + cpp_case_blocks(function, cases)
        + "    auto program_end = steady_clock::now();\n    long end_mem = get_memory_kb();\n    double total_time = duration_cast<microseconds>(program_end - program_start).count() / 1000.0;\n    cout << \"\\n=== Performance ===\" << endl;\n    cout << \"Time: \" << fixed << setprecision(3) << total_time << \"ms\" << endl;\n    cout << \"Memory: \" << end_mem - start_mem << \" KB\" << endl;\n    return 0;\n}"@
}

impl CodeGenerator for CppCodeGenerator {
    open spec fn spec_generate(
        &self,
        code: Seq<char>,
        function: Seq<char>,
        cases: Seq<TestCase>,
    ) -> Seq<char> {
        cpp_program(code, function, cases)
    }

    #[verifier::loop_isolation(false)]
    fn generate(&self, code: &str, function: &str, test_cases: &Vec<TestCase>) -> (r: String) {
        let mut full = String::new();
        full.append(
            "#include <iostream>\n#include <chrono>\n#include <iomanip>\n#include <sys/resource.h>\nusing namespace std;\nusing namespace std::chrono;\n\n",
        );
        full.append(code);
        full.append(
            "\n\nlong get_memory_kb() {\n    struct rusage usage;\n    getrusage(RUSAGE_SELF, &usage);\n    return usage.ru_maxrss;\n}\n\nint main() {\n    auto program_start = steady_clock::now();\n    long start_mem = get_memory_kb();\n\n",
        );
        let ghost pro = full@;
        let n = test_cases.len();
        let mut i: usize = 0;
        while i < n
            invariant
                0 <= i <= n,
                n == test_cases@.len(),
                full@ == pro + cpp_case_blocks(function@, test_cases@.take(i as int)),
            decreases n - i,
        {
            let t = &test_cases[i];
            let args = args_join(&t.input);
            let exp = int_to_string(t.expected as i64);
            full.append("    {\n        auto start = steady_clock::now();\n        int result = ");
            full.append(function);
            full.append("(");
            full.append(args.as_str());
            full.append(
                ");\n        auto end = steady_clock::now();\n        double time_ms = duration_cast<microseconds>(end - start).count() / 1000.0;\n        cout << \"Input: (",
            );
            full.append(args.as_str());
            full.append(") => Output: \" << result << \" | Expected: ");
            full.append(exp.as_str());
            full.append(" | \" << (result == ");
            full.append(exp.as_str());
            full.append(
                " ? \"\u{2705} PASS\" : \"\u{274c} FAIL\") << \" | Time: \" << fixed << setprecision(3) << time_ms << \"ms\" << endl;\n    }\n\n",
            );
            proof {
                let cur = test_cases@.take(i + 1);
                assert(cur.drop_last() =~= test_cases@.take(i as int));
                assert(cur.last() == test_cases@[i as int]);
                assert(full@ =~= pro + cpp_case_blocks(function@, cur));
            }
            i = i + 1;
        }
        proof {
            assert(test_cases@.take(n as int) =~= test_cases@);
        }
        full.append(
            "    auto program_end = steady_clock::now();\n    long end_mem = get_memory_kb();\n    double total_time = duration_cast<microseconds>(program_end - program_start).count() / 1000.0;\n    cout << \"\\n=== Performance ===\" << endl;\n    cout << \"Time: \" << fixed << setprecision(3) << total_time << \"ms\" << endl;\n    cout << \"Memory: \" << end_mem - start_mem << \" KB\" << endl;\n    return 0;\n}",
        );
        proof {
            assert(full@ =~= cpp_program(code@, function@, test_cases@));
        }
        full
    }
}

} // verus!

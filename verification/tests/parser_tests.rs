use code_judge::parser::{parse_output, ParseOutcome};

fn expect_report(r: ParseOutcome) -> code_judge::parser::ExecutionReport {
    match r {
        ParseOutcome::Report(rep) => rep,
        ParseOutcome::Failure => panic!("expected a report, got the generic failure"),
    }
}

fn is_failure(r: &ParseOutcome) -> bool {
    matches!(r, ParseOutcome::Failure)
}

#[test]
fn scenario_one_pass_one_fail() {
    // add(a, b) over [(2, 3) -> 5, (2, 2) -> 5]: the first passes, the second fails
    let raw = "Input: (2, 3) => Output: 5 | Expected: 5 | \u{2705} PASS | Time: 0.123ms\n\
               Input: (2, 2) => Output: 4 | Expected: 5 | \u{274c} FAIL | Time: 0.100ms\n\
               \n=== Performance ===\nTime: 0.300ms\nMemory: 12 KB\n";
    let rep = expect_report(parse_output(raw));
    assert_eq!(rep.summary.total, 2);
    assert_eq!(rep.summary.passed, 1);
    let pass_rate = rep.summary.passed as f64 / rep.summary.total as f64;
    assert_eq!(pass_rate, 0.5);
    assert_eq!(rep.summary.total_time_us, 223);
    assert_eq!(rep.summary.peak_memory_kb, 12);
    assert_eq!(rep.summary.time_complexity, "O(1)");
    assert_eq!(rep.summary.space_complexity, "O(1)");
    assert_eq!(rep.cases.len(), 2);
    assert_eq!(rep.cases[0].input, vec![2, 3]);
    assert_eq!(rep.cases[0].output, 5);
    assert_eq!(rep.cases[0].expected, 5);
    assert!(rep.cases[0].passed);
    assert_eq!(rep.cases[0].time_us, 123);
    assert_eq!(rep.cases[1].input, vec![2, 2]);
    assert_eq!(rep.cases[1].output, 4);
    assert!(!rep.cases[1].passed);
}

#[test]
fn all_passing_gives_full_rate() {
    let raw = "Input: (1) => Output: 1 | Expected: 1 | \u{2705} PASS | Time: 1.000ms\n\
               Input: (2) => Output: 2 | Expected: 2 | \u{2705} PASS | Time: 2.000ms\n\
               Input: (3) => Output: 3 | Expected: 3 | \u{2705} PASS | Time: 3.000ms\n";
    let rep = expect_report(parse_output(raw));
    assert_eq!(rep.summary.total, 3);
    assert_eq!(rep.summary.passed, 3);
    assert_eq!(rep.summary.passed as f64 / rep.summary.total as f64, 1.0);
    assert_eq!(rep.summary.total_time_us, 6000);
}

#[test]
fn empty_input_is_failure() {
    assert!(is_failure(&parse_output("")));
}

#[test]
fn banner_without_cases_is_failure() {
    // what a zero-case harness prints: banner and aggregates, no case lines
    let raw = "\n=== Performance ===\nTime: 0.004ms\nMemory: 0 KB\n";
    assert!(is_failure(&parse_output(raw)));
}

#[test]
fn timeout_sentinel_is_failure() {
    assert!(is_failure(&parse_output(
        "\u{23f0} Execution timed out (killed by host)"
    )));
}

#[test]
fn crash_text_is_failure() {
    let raw = "Traceback (most recent call last):\n  File \"/tmp/main.py\", line 1\nNameError\n";
    assert!(is_failure(&parse_output(raw)));
}

#[test]
fn parse_twice_is_identical() {
    let raw = "Input: (-7, 100) => Output: 93 | Expected: 93 | \u{2705} PASS | Time: 12.5ms\nMemory: 2048 KB\n";
    let a = expect_report(parse_output(raw));
    let b = expect_report(parse_output(raw));
    assert_eq!(a.summary.total, b.summary.total);
    assert_eq!(a.summary.passed, b.summary.passed);
    assert_eq!(a.summary.total_time_us, b.summary.total_time_us);
    assert_eq!(a.summary.peak_memory_kb, b.summary.peak_memory_kb);
    assert_eq!(a.summary.time_complexity, b.summary.time_complexity);
    assert_eq!(a.summary.space_complexity, b.summary.space_complexity);
    assert_eq!(a.cases.len(), b.cases.len());
    for (x, y) in a.cases.iter().zip(b.cases.iter()) {
        assert_eq!(x.input, y.input);
        assert_eq!(x.output, y.output);
        assert_eq!(x.expected, y.expected);
        assert_eq!(x.passed, y.passed);
        assert_eq!(x.time_us, y.time_us);
    }
}

#[test]
fn argument_list_round_trip() {
    // the echoed list re-splits into the original ordered integers
    let raw = "Input: (-2147483648, 0, 2147483647) => Output: 0 | Expected: 0 | \u{2705} PASS | Time: 0.001ms\n";
    let rep = expect_report(parse_output(raw));
    assert_eq!(rep.cases[0].input, vec![-2147483648, 0, 2147483647]);
}

#[test]
fn empty_argument_list() {
    let raw = "Input: () => Output: 7 | Expected: 7 | \u{2705} PASS | Time: 0.010ms\n";
    let rep = expect_report(parse_output(raw));
    assert_eq!(rep.cases[0].input, Vec::<i64>::new());
    assert_eq!(rep.cases[0].time_us, 10);
}

#[test]
fn fixed_point_times() {
    let raw = "Input: (1) => Output: 1 | Expected: 1 | \u{2705} PASS | Time: 3ms\n\
               Input: (1) => Output: 1 | Expected: 1 | \u{2705} PASS | Time: .5ms\n\
               Input: (1) => Output: 1 | Expected: 1 | \u{2705} PASS | Time: 5.ms\n\
               Input: (1) => Output: 1 | Expected: 1 | \u{2705} PASS | Time: 1.2.3ms\n";
    let rep = expect_report(parse_output(raw));
    assert_eq!(rep.cases[0].time_us, 3000);
    assert_eq!(rep.cases[1].time_us, 500);
    assert_eq!(rep.cases[2].time_us, 5000);
    // a malformed number (two dots) still matches the grammar but reads as 0
    assert_eq!(rep.cases[3].time_us, 0);
    assert_eq!(rep.summary.total, 4);
}

#[test]
fn fractional_digits_beyond_three_are_dropped() {
    let raw = "Input: (1) => Output: 1 | Expected: 1 | \u{2705} PASS | Time: 0.123456ms\n";
    let rep = expect_report(parse_output(raw));
    assert_eq!(rep.cases[0].time_us, 123);
}

#[test]
fn out_of_range_output_reads_as_zero() {
    let raw = "Input: (1) => Output: 99999999999999999999 | Expected: 0 | \u{274c} FAIL | Time: 0.001ms\n";
    let rep = expect_report(parse_output(raw));
    assert_eq!(rep.cases[0].output, 0);
}

#[test]
fn last_memory_line_wins() {
    let raw = "Memory: 5 KB\nInput: (1) => Output: 1 | Expected: 1 | \u{2705} PASS | Time: 0.001ms\nMemory: 77 KB\n";
    let rep = expect_report(parse_output(raw));
    assert_eq!(rep.summary.peak_memory_kb, 77);
}

#[test]
fn malformed_case_lines_are_ignored() {
    let raw = "Input: (1 => Output: 1 | Expected: 1 | \u{2705} PASS | Time: 0.001ms\n\
               Input: (1) => Output: x | Expected: 1 | \u{2705} PASS | Time: 0.001ms\n\
               Input: (1) => Output: 1 | Expected: 1 | \u{2705} PASS | Time: 0.001msX\n\
               Input: (2) => Output: 2 | Expected: 2 | \u{2705} PASS | Time: 0.001ms\n";
    let rep = expect_report(parse_output(raw));
    assert_eq!(rep.summary.total, 1);
    assert_eq!(rep.cases[0].input, vec![2]);
}

#[test]
fn crlf_line_endings_are_accepted() {
    let raw = "Input: (4) => Output: 4 | Expected: 4 | \u{2705} PASS | Time: 0.002ms\r\nMemory: 3 KB\r\n";
    let rep = expect_report(parse_output(raw));
    assert_eq!(rep.summary.total, 1);
    assert_eq!(rep.summary.peak_memory_kb, 3);
}

#[test]
fn negative_memory_is_kept() {
    let raw = "Input: (1) => Output: 1 | Expected: 1 | \u{2705} PASS | Time: 0.001ms\nMemory: -64 KB\n";
    let rep = expect_report(parse_output(raw));
    assert_eq!(rep.summary.peak_memory_kb, -64);
    assert_eq!(rep.summary.space_complexity, "O(1)");
}
